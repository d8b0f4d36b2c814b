//! Writing intermediate values in the wire format.

use crate::codec::{
    attribute_value,
    encode_entries,
    encode_fields,
    encode_first_variant,
    encode_items,
    encode_spec,
    length_prefixed,
    symbol_position,
    EncodeError,
};
use crate::custom_types::CustomTypeHooks;
use crate::descriptors::{record_settled, RecordDescriptor, TypeDescriptor};
use crate::model_pool::ModelRegistry;
use crate::values::{bytes_equal, AvromaticValue, HostValue, ModelStorage};
use crate::varint::{fits_int, is_int, long_bytes, write_long};
use vstd::bytes::{u32_to_le_bytes, u64_to_le_bytes};
use vstd::prelude::*;
use vstd::utf8::{encode_utf8, valid_utf8};

verus! {

/// `std::str::from_utf8`, asked only whether it succeeds: it does exactly
/// on the byte strings that are well-formed UTF-8.
#[verifier::external_body]
pub(crate) fn is_utf8(bytes: &[u8]) -> (r: bool)
    ensures
        r == valid_utf8(bytes@),
{
    std::str::from_utf8(bytes).is_ok()
}

/// What was written, as the wire-format functions speak of it.
pub open spec fn written(r: Result<Vec<u8>, EncodeError>) -> Result<Seq<u8>, EncodeError> {
    match r {
        Ok(bytes) => Ok(bytes@),
        Err(e) => Err(e),
    }
}

/// A string or byte string: its length, then its bytes.
pub fn serialize_bytes(bytes: &Vec<u8>) -> (r: Vec<u8>)
    ensures
        r@ == length_prefixed(bytes@),
{
    let mut out: Vec<u8> = Vec::new();
    write_long(#[verifier::truncate] (bytes.len() as i64), &mut out);
    out.extend_from_slice(bytes.as_slice());
    assert(out@ =~= length_prefixed(bytes@));
    out
}

/// A string: a byte string that must be UTF-8.
pub fn serialize_string(bytes: &Vec<u8>) -> (r: Result<Vec<u8>, EncodeError>)
    ensures
        written(r) == if valid_utf8(bytes@) {
            Ok::<Seq<u8>, EncodeError>(length_prefixed(bytes@))
        } else {
            Err::<Seq<u8>, EncodeError>(EncodeError::Mismatch)
        },
{
    if is_utf8(bytes.as_slice()) {
        Ok(serialize_bytes(bytes))
    } else {
        Err(EncodeError::Mismatch)
    }
}

/// A long, and the timestamps, which are longs.
pub fn serialize_long(n: i64) -> (r: Vec<u8>)
    ensures
        r@ == long_bytes(n),
{
    let mut out: Vec<u8> = Vec::new();
    write_long(n, &mut out);
    assert(out@ =~= long_bytes(n));
    out
}

/// An int, and a date, which is an int: a number that fits 32 bits.
pub fn serialize_integer(n: i64) -> (r: Result<Vec<u8>, EncodeError>)
    ensures
        written(r) == if fits_int(n) {
            Ok::<Seq<u8>, EncodeError>(long_bytes(n))
        } else {
            Err::<Seq<u8>, EncodeError>(EncodeError::IntOutOfRange)
        },
{
    if is_int(n) {
        Ok(serialize_long(n))
    } else {
        Err(EncodeError::IntOutOfRange)
    }
}

/// An enum: the index of the symbol that the string spells.
pub fn serialize_enum(bytes: &Vec<u8>, symbols: &Vec<String>) -> (r: Result<Vec<u8>, EncodeError>)
    ensures
        written(r) == match symbol_position(
            Seq::new(symbols.len() as nat, |i: int| symbols[i]@),
            bytes@,
            0,
        ) {
            Some(index) => if index <= 0x7fff_ffff {
                Ok::<Seq<u8>, EncodeError>(long_bytes(index as i64))
            } else {
                Err::<Seq<u8>, EncodeError>(EncodeError::IntOutOfRange)
            },
            None => Err::<Seq<u8>, EncodeError>(EncodeError::UnknownSymbol),
        },
{
    let ghost names = Seq::new(symbols.len() as nat, |i: int| symbols[i]@);
    let mut i: usize = 0;
    while i < symbols.len()
        invariant
            i <= symbols.len(),
            names == Seq::new(symbols.len() as nat, |i: int| symbols[i]@),
            symbol_position(names, bytes@, 0) == symbol_position(names, bytes@, i as nat),
        decreases symbols.len() - i,
    {
        if bytes_equal(symbols[i].as_str().as_bytes(), bytes.as_slice()) {
            if i <= 0x7fff_ffff {
                return Ok(serialize_long(i as i64));
            }
            return Err(EncodeError::IntOutOfRange);
        }
        i += 1;
    }
    Err(EncodeError::UnknownSymbol)
}

/// A fixed: its bytes, which must be as many as the size says.
pub fn serialize_fixed(bytes: &Vec<u8>, size: usize) -> (r: Result<Vec<u8>, EncodeError>)
    ensures
        written(r) == if bytes@.len() == size {
            Ok::<Seq<u8>, EncodeError>(bytes@)
        } else {
            Err::<Seq<u8>, EncodeError>(EncodeError::Mismatch)
        },
{
    if bytes.len() == size {
        let mut out: Vec<u8> = Vec::new();
        out.extend_from_slice(bytes.as_slice());
        assert(out@ =~= bytes@);
        Ok(out)
    } else {
        Err(EncodeError::Mismatch)
    }
}

/// The value stored under `name`, if any.
pub fn find_attribute<'a>(storage: &'a ModelStorage, name: &String) -> (r: Option<
    &'a AvromaticValue,
>)
    ensures
        match r {
            Some(value) => value@ == attribute_value(storage@, name@, 0),
            None => attribute_value(storage@, name@, 0) == crate::values::ValueView::Null,
        },
{
    let mut i: usize = 0;
    while i < storage.attributes.len()
        invariant
            i <= storage.attributes.len(),
            attribute_value(storage@, name@, 0) == attribute_value(storage@, name@, i as nat),
        decreases storage.attributes.len() - i,
    {
        if storage.attributes[i].0 == *name {
            return Some(&storage.attributes[i].1);
        }
        i += 1;
    }
    None
}

impl TypeDescriptor {
    /// Writes `value` in the wire format.
    ///
    /// Where no custom type of the tree has a hook the result is exactly
    /// what `encode_spec` states: the bytes, or the error. Where one has,
    /// its hooks decide.
    pub fn serialize<H: CustomTypeHooks>(
        &self,
        value: &AvromaticValue,
        registry: &ModelRegistry,
        hooks: &H,
    ) -> (r: Result<Vec<u8>, EncodeError>)
        ensures
            self@.settled(registry@) ==> written(r) == encode_spec(
                self@,
                value@,
                registry@,
                registry@.len(),
            ),
            self.is_scalar() ==> written(r) == encode_spec(self@, value@, registry@, registry@.len()),
    {
        self.serialize_below(value, registry, hooks, registry.models.len())
    }

    /// As `serialize`, following record handles only below `level`.
    pub(crate) fn serialize_below<H: CustomTypeHooks>(
        &self,
        value: &AvromaticValue,
        registry: &ModelRegistry,
        hooks: &H,
        level: usize,
    ) -> (r: Result<Vec<u8>, EncodeError>)
        requires
            level <= registry@.len(),
        ensures
            self@.settled(registry@) ==> written(r) == encode_spec(
                self@,
                value@,
                registry@,
                level as nat,
            ),
            self.is_scalar() ==> written(r) == encode_spec(self@, value@, registry@, level as nat),
        decreases level, 1nat, self, 0nat,
    {
        match self {
            TypeDescriptor::Null => match value {
                AvromaticValue::Null => Ok(Vec::new()),
                _ => Err(EncodeError::Mismatch),
            },
            TypeDescriptor::Boolean => match value {
                AvromaticValue::True => {
                    let mut out: Vec<u8> = Vec::new();
                    out.push(1u8);
                    assert(out@ =~= seq![1u8]);
                    Ok(out)
                },
                AvromaticValue::False => {
                    let mut out: Vec<u8> = Vec::new();
                    out.push(0u8);
                    assert(out@ =~= seq![0u8]);
                    Ok(out)
                },
                _ => Err(EncodeError::Mismatch),
            },
            TypeDescriptor::String => match value {
                AvromaticValue::String(bytes) => serialize_string(bytes),
                _ => Err(EncodeError::Mismatch),
            },
            TypeDescriptor::Bytes => match value {
                AvromaticValue::String(bytes) => Ok(serialize_bytes(bytes)),
                _ => Err(EncodeError::Mismatch),
            },
            TypeDescriptor::Enum(symbols) => match value {
                AvromaticValue::String(bytes) => {
                    assert(self@->Enum_0 =~= Seq::new(symbols.len() as nat, |i: int| symbols[i]@));
                    serialize_enum(bytes, symbols)
                },
                _ => Err(EncodeError::Mismatch),
            },
            TypeDescriptor::Int | TypeDescriptor::Date => match value {
                AvromaticValue::Long(n) => serialize_integer(*n),
                _ => Err(EncodeError::Mismatch),
            },
            TypeDescriptor::Long
            | TypeDescriptor::TimestampMillis
            | TypeDescriptor::TimestampMicros => match value {
                AvromaticValue::Long(n) => Ok(serialize_long(*n)),
                _ => Err(EncodeError::Mismatch),
            },
            TypeDescriptor::Float => match value {
                AvromaticValue::Float(bits) => Ok(u32_to_le_bytes(*bits)),
                _ => Err(EncodeError::Mismatch),
            },
            TypeDescriptor::Double => match value {
                AvromaticValue::Double(bits) => Ok(u64_to_le_bytes(*bits)),
                _ => Err(EncodeError::Mismatch),
            },
            TypeDescriptor::Fixed(size) => match value {
                AvromaticValue::String(bytes) => serialize_fixed(bytes, *size),
                _ => Err(EncodeError::Mismatch),
            },
            TypeDescriptor::Array(inner) => match value {
                AvromaticValue::Array(items) => serialize_array(
                    items,
                    inner,
                    registry,
                    hooks,
                    level,
                ),
                _ => Err(EncodeError::Mismatch),
            },
            TypeDescriptor::Mapping(inner) => match value {
                AvromaticValue::Mapping(entries) => serialize_map(
                    entries,
                    inner,
                    registry,
                    hooks,
                    level,
                ),
                _ => Err(EncodeError::Mismatch),
            },
            TypeDescriptor::Union(_, variants) => {
                assert(decreases_to!(self => self->Union_1));
                assert(forall|i: int|
                    0 <= i < variants.len() ==> (#[trigger] self@->Union_1[i]) == variants[i]@);
                assert(self@->Union_1.len() == variants.len());
                assert(self@.settled(registry@) ==> forall|i: int|
    0 <= i < variants.len() ==> (#[trigger] variants[i])@.settled(registry@)) by {
    if self@.settled(registry@) {
        assert forall|i: int| 0 <= i < variants.len() implies (
        #[trigger] variants[i])@.settled(registry@) by {
            assert(self@->Union_1[i].hook_free());
            assert(self@.record_free() ==> self@->Union_1[i].record_free());
        }
    }
}
                match value {
                    AvromaticValue::Union(index, inner) => serialize_union(
                        inner,
                        *index,
                        variants,
                        registry,
                        hooks,
                        level,
                    ),
                    _ => {
                        let r = serialize_untracked_union(
                            value,
                            variants,
                            registry,
                            hooks,
                            level,
                        );
                        assert(self@->Union_1 =~= Seq::new(
                            variants.len() as nat,
                            |i: int| variants[i]@,
                        ));
                        r
                    },
                }
            },
            TypeDescriptor::Record(handle) => match value {
                AvromaticValue::Record(storage) => {
                    if *handle < level {
                        let model = &registry.models[*handle];
                        assert(registry@[*handle as int] == model@);
                        serialize_record(
                            storage,
                            &model.descriptor,
                            registry,
                            hooks,
                            *handle,
                        )
                    } else {
                        Err(EncodeError::UnknownModel)
                    }
                },
                _ => Err(EncodeError::Mismatch),
            },
            TypeDescriptor::Custom(custom, inner) => match value {
                AvromaticValue::Custom(wrapped) => {
                    let underlying = custom.serialize(wrapped, hooks);
                    serialize_custom(underlying, inner, registry, hooks, level)
                },
                _ => Err(EncodeError::Mismatch),
            },
        }
    }
}

/// Writes `value` under the descriptor that `schema` compiles to, with no
/// model registered beforehand and no extension. A schema that does not
/// compile takes no value.
pub fn to_avro(schema: &crate::schema::SchemaNode, value: &AvromaticValue) -> (r: Result<
    Vec<u8>,
    EncodeError,
>)
    ensures
        written(r) == ({
            let compiled = crate::builder::build_spec(schema, Seq::empty(), None, Seq::empty());
            match compiled.result {
                Err(_) => Err::<Seq<u8>, EncodeError>(EncodeError::Mismatch),
                Ok(d) => encode_spec(d, value@, compiled.registry, compiled.registry.len()),
            }
        }),
{
    let mut registry = ModelRegistry::new(None);
    let custom_types = crate::custom_types::CustomTypeRegistry::new();
    let hooks = crate::custom_types::NoHooks;
    assert(registry@ =~= Seq::empty());
    assert(custom_types@ =~= Seq::empty());
    match TypeDescriptor::build(schema, &mut registry, &custom_types, &hooks) {
        Err(_) => Err(EncodeError::Mismatch),
        Ok(d) => d.serialize(value, &registry, &hooks),
    }
}

/// Writes the attributes of a record under the record descriptor that
/// `schema` compiles to, with no model registered beforehand and no
/// extension. A schema that does not compile takes no attributes.
pub fn serialize(schema: &crate::schema::SchemaNode, attributes: &ModelStorage) -> (r: Result<
    Vec<u8>,
    EncodeError,
>)
    ensures
        written(r) == ({
            let compiled = crate::model_descriptor::record_spec(
                schema,
                Seq::empty(),
                None,
                Seq::empty(),
            );
            match compiled.result {
                Err(_) => Err::<Seq<u8>, EncodeError>(EncodeError::Mismatch),
                Ok(record) => encode_fields(
                    record,
                    0,
                    attributes@,
                    compiled.registry,
                    compiled.registry.len(),
                ),
            }
        }),
{
    let mut registry = ModelRegistry::new(None);
    let custom_types = crate::custom_types::CustomTypeRegistry::new();
    let hooks = crate::custom_types::NoHooks;
    assert(registry@ =~= Seq::empty());
    assert(custom_types@ =~= Seq::empty());
    match RecordDescriptor::build(schema, &mut registry, &custom_types, &hooks) {
        Err(_) => Err(EncodeError::Mismatch),
        Ok(record) => record.serialize(attributes, &registry, &hooks),
    }
}

/// A custom value, once its `to_avro` hook has answered: the answer is
/// coerced under the underlying descriptor and written under it. A hook
/// that failed gives `CustomTypeFailed`, an answer that does not coerce
/// gives `Mismatch`.
pub(crate) fn serialize_custom<H: CustomTypeHooks>(
    underlying: Option<HostValue>,
    inner: &TypeDescriptor,
    registry: &ModelRegistry,
    hooks: &H,
    level: usize,
) -> (r: Result<Vec<u8>, EncodeError>)
    requires
        level <= registry@.len(),
    ensures
        inner@.settled(registry@) ==> written(r) == match underlying {
            None => Err::<Seq<u8>, EncodeError>(EncodeError::CustomTypeFailed),
            Some(host) => match crate::coercion::coerce_spec(inner@, host@, registry@, level as nat) {
                Err(_) => Err::<Seq<u8>, EncodeError>(EncodeError::Mismatch),
                Ok(value) => encode_spec(inner@, value, registry@, level as nat),
            },
        },
    decreases level, 1nat, inner, 1nat,
{
    match underlying {
        None => Err(EncodeError::CustomTypeFailed),
        Some(host) => match inner.coerce_below(&host, registry, hooks, level) {
            Err(_) => Err(EncodeError::Mismatch),
            Ok(value) => inner.serialize_below(&value, registry, hooks, level),
        },
    }
}

/// An array: one block with all the items, then the closing zero; the
/// zero alone where there is no item.
pub(crate) fn serialize_array<H: CustomTypeHooks>(
    items: &Vec<AvromaticValue>,
    inner: &TypeDescriptor,
    registry: &ModelRegistry,
    hooks: &H,
    level: usize,
) -> (r: Result<Vec<u8>, EncodeError>)
    requires
        level <= registry@.len(),
    ensures
        inner@.settled(registry@) ==> written(r) == encode_spec(
            crate::descriptors::DescriptorView::Array(Box::new(inner@)),
            AvromaticValue::Array(*items)@,
            registry@,
            level as nat,
        ),
    decreases level, 1nat, inner, 1nat,
{
    let ghost views = AvromaticValue::Array(*items)@->Array_0;
    let ghost plain = inner@.settled(registry@);
    let mut out: Vec<u8> = Vec::new();
    if items.len() > 0 {
        write_long(#[verifier::truncate] (items.len() as i64), &mut out);
    }
    let ghost head = out@;
    let mut i: usize = 0;
    while i < items.len()
        invariant
            level <= registry@.len(),
            plain == (inner@.settled(registry@)),
            i <= items.len(),
            views.len() == items.len(),
            AvromaticValue::Array(*items)@ == crate::values::ValueView::Array(views),
            forall|j: int| 0 <= j < items.len() ==> views[j] == items[j]@,
            head.len() <= out@.len(),
            out@.subrange(0, head.len() as int) == head,
            plain ==> match encode_items(inner@, views, i as nat, registry@, level as nat) {
                Ok(rest) => encode_items(inner@, views, 0, registry@, level as nat) == Ok::<
                    Seq<u8>,
                    EncodeError,
                >(out@.subrange(head.len() as int, out@.len() as int) + rest),
                Err(e) => encode_items(inner@, views, 0, registry@, level as nat) == Err::<
                    Seq<u8>,
                    EncodeError,
                >(e),
            },
        decreases items.len() - i,
    {
        let ghost before = out@;
        match inner.serialize_below(&items[i], registry, hooks, level) {
            Ok(part) => {
                out.extend_from_slice(part.as_slice());
                proof {
                    if plain {
                        let rest = encode_items(inner@, views, (i + 1) as nat, registry@, level as nat);
                        if rest is Ok {
                            assert(before.subrange(head.len() as int, before.len() as int) + (part@
                                + rest->Ok_0) =~= out@.subrange(
                                head.len() as int,
                                out@.len() as int,
                            ) + rest->Ok_0);
                        }
                    }
                    assert(out@.subrange(0, head.len() as int) =~= before.subrange(
                        0,
                        head.len() as int,
                    ));
                }
            },
            Err(e) => {
                assert(plain ==> encode_items(inner@, views, i as nat, registry@, level as nat) == Err::<
                    Seq<u8>,
                    EncodeError,
                >(e));
                return Err(e);
            },
        }
        i += 1;
    }
    out.push(0u8);
    proof {
        if plain {
            let body = encode_items(inner@, views, 0, registry@, level as nat)->Ok_0;
            if items.len() == 0 {
                assert(out@ =~= seq![0u8]);
            } else {
                assert(out@ =~= long_bytes(views.len() as i64) + body + seq![0u8]);
            }
        }
    }
    Ok(out)
}

/// A map: one block with all the entries, each its key and its value,
/// then the closing zero; the zero alone where there is no entry.
pub(crate) fn serialize_map<H: CustomTypeHooks>(
    entries: &Vec<(Vec<u8>, AvromaticValue)>,
    inner: &TypeDescriptor,
    registry: &ModelRegistry,
    hooks: &H,
    level: usize,
) -> (r: Result<Vec<u8>, EncodeError>)
    requires
        level <= registry@.len(),
    ensures
        inner@.settled(registry@) ==> written(r) == encode_spec(
            crate::descriptors::DescriptorView::Mapping(Box::new(inner@)),
            AvromaticValue::Mapping(*entries)@,
            registry@,
            level as nat,
        ),
    decreases level, 1nat, inner, 1nat,
{
    let ghost views = AvromaticValue::Mapping(*entries)@->Mapping_0;
    let ghost plain = inner@.settled(registry@);
    let mut out: Vec<u8> = Vec::new();
    if entries.len() > 0 {
        write_long(#[verifier::truncate] (entries.len() as i64), &mut out);
    }
    let ghost head = out@;
    let mut i: usize = 0;
    while i < entries.len()
        invariant
            level <= registry@.len(),
            plain == (inner@.settled(registry@)),
            i <= entries.len(),
            views.len() == entries.len(),
            AvromaticValue::Mapping(*entries)@ == crate::values::ValueView::Mapping(views),
            forall|j: int|
                0 <= j < entries.len() ==> views[j] == (entries[j].0@, entries[j].1@),
            head.len() <= out@.len(),
            out@.subrange(0, head.len() as int) == head,
            plain ==> match encode_entries(inner@, views, i as nat, registry@, level as nat) {
                Ok(rest) => encode_entries(inner@, views, 0, registry@, level as nat) == Ok::<
                    Seq<u8>,
                    EncodeError,
                >(out@.subrange(head.len() as int, out@.len() as int) + rest),
                Err(e) => encode_entries(inner@, views, 0, registry@, level as nat) == Err::<
                    Seq<u8>,
                    EncodeError,
                >(e),
            },
        decreases entries.len() - i,
    {
        let ghost before = out@;
        match inner.serialize_below(&entries[i].1, registry, hooks, level) {
            Ok(part) => {
                let key = serialize_bytes(&entries[i].0);
                out.extend_from_slice(key.as_slice());
                out.extend_from_slice(part.as_slice());
                proof {
                    if plain {
                        let rest = encode_entries(inner@, views, (i + 1) as nat, registry@, level as nat);
                        if rest is Ok {
                            assert(before.subrange(head.len() as int, before.len() as int) + (
                            length_prefixed(views[i as int].0) + part@ + rest->Ok_0)
                                =~= out@.subrange(head.len() as int, out@.len() as int)
                                + rest->Ok_0);
                        }
                    }
                    assert(out@.subrange(0, head.len() as int) =~= before.subrange(
                        0,
                        head.len() as int,
                    ));
                }
            },
            Err(e) => {
                assert(plain ==> encode_entries(inner@, views, i as nat, registry@, level as nat) == Err::<
                    Seq<u8>,
                    EncodeError,
                >(e));
                return Err(e);
            },
        }
        i += 1;
    }
    out.push(0u8);
    proof {
        if plain {
            let body = encode_entries(inner@, views, 0, registry@, level as nat)->Ok_0;
            if entries.len() == 0 {
                assert(out@ =~= seq![0u8]);
            } else {
                assert(out@ =~= long_bytes(views.len() as i64) + body + seq![0u8]);
            }
        }
    }
    Ok(out)
}

/// A tagged union value: the branch index, then the value under that
/// branch.
pub(crate) fn serialize_union<H: CustomTypeHooks>(
    value: &AvromaticValue,
    index: usize,
    variants: &Vec<TypeDescriptor>,
    registry: &ModelRegistry,
    hooks: &H,
    level: usize,
) -> (r: Result<Vec<u8>, EncodeError>)
    requires
        level <= registry@.len(),
    ensures
        (forall|i: int| 0 <= i < variants.len() ==> (#[trigger] variants[i])@.settled(registry@)) ==> written(r) == if index < variants.len() {
            match encode_spec(variants[index as int]@, value@, registry@, level as nat) {
                Ok(body) => Ok::<Seq<u8>, EncodeError>(long_bytes(index as i64) + body),
                Err(e) => Err::<Seq<u8>, EncodeError>(e),
            }
        } else {
            Err::<Seq<u8>, EncodeError>(EncodeError::InvalidUnion)
        },
    decreases level, 1nat, variants, 1nat,
{
    if index < variants.len() {
        match variants[index].serialize_below(value, registry, hooks, level) {
            Ok(body) => {
                let mut out: Vec<u8> = Vec::new();
                write_long(#[verifier::truncate] (index as i64), &mut out);
                out.extend_from_slice(body.as_slice());
                assert(out@ =~= long_bytes(index as i64) + body@);
                Ok(out)
            },
            Err(e) => Err(e),
        }
    } else {
        Err(EncodeError::InvalidUnion)
    }
}

/// An untagged value under a union: written under the first variant
/// that takes it.
pub(crate) fn serialize_untracked_union<H: CustomTypeHooks>(
    value: &AvromaticValue,
    variants: &Vec<TypeDescriptor>,
    registry: &ModelRegistry,
    hooks: &H,
    level: usize,
) -> (r: Result<Vec<u8>, EncodeError>)
    requires
        level <= registry@.len(),
    ensures
        (forall|i: int| 0 <= i < variants.len() ==> (#[trigger] variants[i])@.settled(registry@)) ==> written(r) == encode_first_variant(
            Seq::new(variants.len() as nat, |i: int| variants[i]@),
            0,
            value@,
            registry@,
            level as nat,
        ),
    decreases level, 1nat, variants, 1nat,
{
    let ghost views = Seq::new(variants.len() as nat, |i: int| variants[i]@);
    let ghost plain = (forall|i: int| 0 <= i < variants.len() ==> (#[trigger] variants[i])@.settled(registry@));
    let mut i: usize = 0;
    while i < variants.len()
        invariant
            level <= registry@.len(),
            plain == ((forall|i: int| 0 <= i < variants.len() ==> (#[trigger] variants[i])@.settled(registry@))),
            views == Seq::new(variants.len() as nat, |i: int| variants[i]@),
            i <= variants.len(),
            plain ==> encode_first_variant(views, 0, value@, registry@, level as nat)
                == encode_first_variant(views, i as nat, value@, registry@, level as nat),
        decreases variants.len() - i,
    {
        match variants[i].serialize_below(value, registry, hooks, level) {
            Ok(body) => {
                let mut out: Vec<u8> = Vec::new();
                write_long(#[verifier::truncate] (i as i64), &mut out);
                out.extend_from_slice(body.as_slice());
                assert(out@ =~= long_bytes(i as i64) + body@);
                return Ok(out);
            },
            Err(_) => {},
        }
        i += 1;
    }
    Err(EncodeError::InvalidUnion)
}

/// A record: its fields in declared order, each the stored value under
/// its name, a missing one as null.
pub(crate) fn serialize_record<H: CustomTypeHooks>(
    storage: &ModelStorage,
    record: &RecordDescriptor,
    registry: &ModelRegistry,
    hooks: &H,
    level: usize,
) -> (r: Result<Vec<u8>, EncodeError>)
    requires
        level <= registry@.len(),
    ensures
        record_settled(record@, registry@) ==> written(r)
            == encode_fields(record@, 0, storage@, registry@, level as nat),
    decreases level + 1, 0nat, record, 0nat,
{
    let ghost plain = record_settled(record@, registry@);
    let mut out: Vec<u8> = Vec::new();
    let null = AvromaticValue::Null;
    let mut i: usize = 0;
    while i < record.attributes.len()
        invariant
            level <= registry@.len(),
            plain == (record_settled(record@, registry@)),
            null@ == crate::values::ValueView::Null,
            i <= record.attributes.len(),
            record@.len() == record.attributes.len(),
            plain ==> match encode_fields(record@, i as nat, storage@, registry@, level as nat) {
                Ok(rest) => encode_fields(record@, 0, storage@, registry@, level as nat) == Ok::<
                    Seq<u8>,
                    EncodeError,
                >(out@ + rest),
                Err(e) => encode_fields(record@, 0, storage@, registry@, level as nat) == Err::<
                    Seq<u8>,
                    EncodeError,
                >(e),
            },
        decreases record.attributes.len() - i,
    {
        let ghost before = out@;
        let field = &record.attributes[i];
        assert(record@[i as int] == (field.0@, field.1@));
        let stored: &AvromaticValue = match find_attribute(storage, &field.0) {
            Some(value) => value,
            None => &null,
        };
        match field.1.type_descriptor.serialize_below(stored, registry, hooks, level) {
            Ok(part) => {
                out.extend_from_slice(part.as_slice());
                proof {
                    if plain {
                        let rest = encode_fields(
                            record@,
                            (i + 1) as nat,
                            storage@,
                            registry@,
                            level as nat,
                        );
                        if rest is Ok {
                            assert(before + (part@ + rest->Ok_0) =~= out@ + rest->Ok_0);
                        }
                    }
                }
            },
            Err(e) => {
                return Err(e);
            },
        }
        i += 1;
    }
    proof {
        if plain {
            assert(out@ + Seq::<u8>::empty() =~= out@);
        }
    }
    Ok(out)
}

} // verus!
