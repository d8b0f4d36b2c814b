//! Reading a datum that was written under another schema.
//!
//! The bytes are read under the writer's schema, and what was read is
//! then resolved to the reader's, type by type:
//!
//! - A record is resolved field by field, in the reader's order. A field
//!   that both have takes the written value, resolved to the reader's
//!   type. A field that only the writer has is skipped. A field that only
//!   the reader has takes the reader's default, and the datum does not
//!   resolve where there is none.
//! - A written union value is resolved under the branch it was written
//!   under. Under a reader's union a value takes the first variant, in
//!   declared order, to which it resolves, and carries that variant's
//!   index.
//! - Arrays and maps are resolved item by item.
//! - An int or a date resolves to every integer type, a long or a
//!   timestamp to every 64-bit one. A string resolves to bytes, and bytes
//!   that are UTF-8 resolve to a string. A fixed resolves to a fixed of
//!   its size, an enum to an enum that has its symbol. Every other type
//!   resolves to itself alone: the library carries floats as bits and
//!   does not promote a number to a float or a float to a double.
//! - Under a reader's custom type a value is resolved to the underlying
//!   type and handed to the extension in its host form.

use crate::codec::{attribute_value, decode_fields, symbol_position};
use crate::custom_types::CustomTypeHooks;
use crate::descriptors::{
    record_settled,
    DescriptorView,
    RecordDescriptor,
    RecordView,
    RegistryView,
    TypeDescriptor,
};
use crate::host::to_ruby_spec;
use crate::literal::{custom_attribute, field_position, find_field, resolved};
use crate::model_pool::ModelRegistry;
use crate::serializer::{find_attribute, is_utf8};
use crate::values::{bytes_equal, clone_bytes, AvromaticValue, ModelStorage, ValueView};
use crate::varint::{fits_int, is_int, DecodeError};
use vstd::prelude::*;
use vstd::utf8::valid_utf8;

verus! {

/// Whether a type is written as an int.
pub open spec fn int_like(d: DescriptorView) -> bool {
    d is Int || d is Date
}

/// Whether a type is written as a long.
pub open spec fn long_like(d: DescriptorView) -> bool {
    d is Long || d is TimestampMillis || d is TimestampMicros
}

/// What a value without inner values, written under `w`, resolves to
/// under `r`: itself, where the reader's type takes it.
pub open spec fn resolve_scalar_spec(w: DescriptorView, r: DescriptorView, v: ValueView) -> Option<
    ValueView,
> {
    let taken = match v {
        ValueView::Null => w is Null && r is Null,
        ValueView::True | ValueView::False => w is Boolean && r is Boolean,
        ValueView::Long(n) => (int_like(w) && fits_int(n) && (int_like(r) || long_like(r))) || (
        long_like(w) && long_like(r)),
        ValueView::Float(_) => w is Float && r is Float,
        ValueView::Double(_) => w is Double && r is Double,
        ValueView::String(bytes) => match r {
            DescriptorView::Bytes => w is String || w is Bytes,
            DescriptorView::String => (w is String || w is Bytes) && valid_utf8(bytes),
            DescriptorView::Fixed(size) => w == DescriptorView::Fixed(size) && bytes.len() == size,
            DescriptorView::Enum(symbols) => w is Enum && symbol_position(symbols, bytes, 0) is Some,
            _ => false,
        },
        _ => false,
    };
    if taken {
        Some(v)
    } else {
        None
    }
}

/// What a value written under `w` resolves to under `r`; `None` where it
/// does not resolve. Record handles of the writer are followed only
/// below `wlevel` in the writer's registry, those of the reader only
/// below `rlevel` in the reader's.
///
/// Under a reader's custom type the value is wrapped in its host form, as
/// an extension without hooks does; what a hook makes of it this function
/// cannot say.
pub open spec fn resolve_spec(
    w: DescriptorView,
    r: DescriptorView,
    v: ValueView,
    wreg: RegistryView,
    wlevel: nat,
    rreg: RegistryView,
    rlevel: nat,
) -> Option<ValueView>
    decreases wlevel, 1nat, w, r, 0nat,
{
    match r {
        DescriptorView::Custom(_, inner) => match resolve_spec(
            w,
            *inner,
            v,
            wreg,
            wlevel,
            rreg,
            rlevel,
        ) {
            None => None,
            Some(raw) => match to_ruby_spec(*inner, raw) {
                None => None,
                Some(host) => Some(ValueView::Custom(Box::new(host))),
            },
        },
        _ => match w {
            DescriptorView::Union(_, written) => match v {
                ValueView::Union(index, inner) => if index < written.len() {
                    resolve_spec(written[index as int], r, *inner, wreg, wlevel, rreg, rlevel)
                } else {
                    None
                },
                _ => None,
            },
            _ => match r {
                DescriptorView::Union(_, variants) => resolve_first_variant(
                    w,
                    variants,
                    0,
                    v,
                    wreg,
                    wlevel,
                    rreg,
                    rlevel,
                ),
                _ => match w {
                    DescriptorView::Array(written) => match (r, v) {
                        (DescriptorView::Array(read), ValueView::Array(items)) => match resolve_items(
                            *written,
                            *read,
                            items,
                            0,
                            Seq::empty(),
                            wreg,
                            wlevel,
                            rreg,
                            rlevel,
                        ) {
                            Some(values) => Some(ValueView::Array(values)),
                            None => None,
                        },
                        _ => None,
                    },
                    DescriptorView::Mapping(written) => match (r, v) {
                        (
                            DescriptorView::Mapping(read),
                            ValueView::Mapping(entries),
                        ) => match resolve_entries(
                            *written,
                            *read,
                            entries,
                            0,
                            Seq::empty(),
                            wreg,
                            wlevel,
                            rreg,
                            rlevel,
                        ) {
                            Some(values) => Some(ValueView::Mapping(values)),
                            None => None,
                        },
                        _ => None,
                    },
                    DescriptorView::Record(written) => match (r, v) {
                        (DescriptorView::Record(read), ValueView::Record(storage)) => if written
                            < wlevel && written < wreg.len() && read < rlevel && read < rreg.len() {
                            match resolve_fields(
                                wreg[written as int].record,
                                rreg[read as int].record,
                                0,
                                storage,
                                Seq::empty(),
                                wreg,
                                written as nat,
                                rreg,
                                read as nat,
                            ) {
                                Some(resolved) => Some(ValueView::Record(resolved)),
                                None => None,
                            }
                        } else {
                            None
                        },
                        _ => None,
                    },
                    _ => resolve_scalar_spec(w, r, v),
                },
            },
        },
    }
}

/// The value under the first of the reader's variants from `from` on to
/// which it resolves, with that variant's index.
pub open spec fn resolve_first_variant(
    w: DescriptorView,
    variants: Seq<DescriptorView>,
    from: nat,
    v: ValueView,
    wreg: RegistryView,
    wlevel: nat,
    rreg: RegistryView,
    rlevel: nat,
) -> Option<ValueView>
    decreases wlevel, 1nat, w, variants, variants.len() - from + 1,
{
    if from >= variants.len() {
        None
    } else {
        match resolve_spec(w, variants[from as int], v, wreg, wlevel, rreg, rlevel) {
            Some(taken) => Some(ValueView::Union(from, Box::new(taken))),
            None => resolve_first_variant(w, variants, from + 1, v, wreg, wlevel, rreg, rlevel),
        }
    }
}

/// The items from `from` on, resolved and put behind `acc`.
pub open spec fn resolve_items(
    w: DescriptorView,
    r: DescriptorView,
    items: Seq<ValueView>,
    from: nat,
    acc: Seq<ValueView>,
    wreg: RegistryView,
    wlevel: nat,
    rreg: RegistryView,
    rlevel: nat,
) -> Option<Seq<ValueView>>
    decreases wlevel, 1nat, w, r, items.len() - from + 1,
{
    if from >= items.len() {
        Some(acc)
    } else {
        match resolve_spec(w, r, items[from as int], wreg, wlevel, rreg, rlevel) {
            None => None,
            Some(value) => resolve_items(
                w,
                r,
                items,
                from + 1,
                acc.push(value),
                wreg,
                wlevel,
                rreg,
                rlevel,
            ),
        }
    }
}

/// The entries from `from` on, each value resolved under its key, put
/// behind `acc`.
pub open spec fn resolve_entries(
    w: DescriptorView,
    r: DescriptorView,
    entries: Seq<(Seq<u8>, ValueView)>,
    from: nat,
    acc: Seq<(Seq<u8>, ValueView)>,
    wreg: RegistryView,
    wlevel: nat,
    rreg: RegistryView,
    rlevel: nat,
) -> Option<Seq<(Seq<u8>, ValueView)>>
    decreases wlevel, 1nat, w, r, entries.len() - from + 1,
{
    if from >= entries.len() {
        Some(acc)
    } else {
        match resolve_spec(w, r, entries[from as int].1, wreg, wlevel, rreg, rlevel) {
            None => None,
            Some(value) => resolve_entries(
                w,
                r,
                entries,
                from + 1,
                acc.push((entries[from as int].0, value)),
                wreg,
                wlevel,
                rreg,
                rlevel,
            ),
        }
    }
}

/// The reader's fields from the `from`th on, behind `acc`: a field that
/// the writer has takes the written value, resolved to the reader's type;
/// a field that the writer lacks takes the reader's default, and nothing
/// resolves where there is none.
pub open spec fn resolve_fields(
    written: RecordView,
    read: RecordView,
    from: nat,
    storage: Seq<(Seq<char>, ValueView)>,
    acc: Seq<(Seq<char>, ValueView)>,
    wreg: RegistryView,
    wlevel: nat,
    rreg: RegistryView,
    rlevel: nat,
) -> Option<Seq<(Seq<char>, ValueView)>>
    decreases wlevel + 1, 0nat, written, read, read.len() - from,
{
    if from >= read.len() {
        Some(acc)
    } else {
        let name = read[from as int].0;
        let taken = match field_position(written, name, 0) {
            Some(index) => if index < written.len() {
                resolve_spec(
                    written[index as int].1.type_descriptor,
                    read[from as int].1.type_descriptor,
                    attribute_value(storage, name, 0),
                    wreg,
                    wlevel,
                    rreg,
                    rlevel,
                )
            } else {
                None
            },
            None => read[from as int].1.default,
        };
        match taken {
            None => None,
            Some(value) => resolve_fields(
                written,
                read,
                from + 1,
                storage,
                acc.push((name, value)),
                wreg,
                wlevel,
                rreg,
                rlevel,
            ),
        }
    }
}

/// The attributes that a datum gives under the reader's record, the
/// datum having been written under the writer's: they are read under the
/// writer's record and resolved field by field. What does not resolve is
/// `Unresolvable`.
pub open spec fn resolve_datum_spec(
    written: RecordView,
    wreg: RegistryView,
    read: RecordView,
    rreg: RegistryView,
    data: Seq<u8>,
) -> Result<Seq<(Seq<char>, ValueView)>, DecodeError> {
    match decode_fields(written, 0, data, 0, Seq::empty(), wreg, wreg.len()) {
        Err(e) => Err(e),
        Ok((storage, _)) => match resolve_fields(
            written,
            read,
            0,
            storage,
            Seq::empty(),
            wreg,
            wreg.len(),
            rreg,
            rreg.len(),
        ) {
            Some(resolved) => Ok(resolved),
            None => Err(DecodeError::Unresolvable),
        },
    }
}

/// What was read into a storage, as the contracts speak of it.
pub open spec fn stored(r: Result<ModelStorage, DecodeError>) -> Result<
    Seq<(Seq<char>, ValueView)>,
    DecodeError,
> {
    match r {
        Ok(storage) => Ok(storage@),
        Err(e) => Err(e),
    }
}

/// Reads a datum under the writer's record and resolves it to the
/// reader's.
///
/// Where no custom type of either side has a hook the result is exactly
/// what `resolve_datum_spec` states. Where one has, its hooks decide.
pub fn resolve_datum<H: CustomTypeHooks>(
    written: &RecordDescriptor,
    writer_registry: &ModelRegistry,
    read: &RecordDescriptor,
    reader_registry: &ModelRegistry,
    data: &[u8],
    hooks: &H,
) -> (r: Result<ModelStorage, DecodeError>)
    ensures
        record_settled(written@, writer_registry@) && record_settled(read@, reader_registry@) ==> stored(r) == resolve_datum_spec(
            written@,
            writer_registry@,
            read@,
            reader_registry@,
            data@,
        ),
{
    match written.deserialize(data, 0, writer_registry, hooks) {
        Err(e) => Err(e),
        Ok((storage, _)) => match resolve_record(
            written,
            read,
            &storage,
            writer_registry,
            writer_registry.models.len(),
            reader_registry,
            reader_registry.models.len(),
            hooks,
        ) {
            Some(resolved) => Ok(resolved),
            None => Err(DecodeError::Unresolvable),
        },
    }
}

/// Whether one of the symbols spells the bytes.
pub fn has_symbol(symbols: &Vec<String>, bytes: &Vec<u8>) -> (r: bool)
    ensures
        r == symbol_position(Seq::new(symbols.len() as nat, |i: int| symbols[i]@), bytes@, 0)
            is Some,
{
    let ghost names = Seq::new(symbols.len() as nat, |i: int| symbols[i]@);
    let mut i: usize = 0;
    while i < symbols.len()
        invariant
            i <= symbols.len(),
            names == Seq::new(symbols.len() as nat, |i: int| symbols[i]@),
            symbol_position(names, bytes@, 0) == symbol_position(names, bytes@, i as nat),
        decreases symbols.len() - i,
    {
        if bytes_equal(symbols[i].as_str().as_bytes(), bytes.as_slice()) {
            return true;
        }
        i += 1;
    }
    false
}

impl TypeDescriptor {
    /// Whether the type is written as an int.
    pub fn is_int_like(&self) -> (r: bool)
        ensures
            r == int_like(self@),
    {
        match self {
            TypeDescriptor::Int | TypeDescriptor::Date => true,
            _ => false,
        }
    }

    /// Whether the type is written as a long.
    pub fn is_long_like(&self) -> (r: bool)
        ensures
            r == long_like(self@),
    {
        match self {
            TypeDescriptor::Long
            | TypeDescriptor::TimestampMillis
            | TypeDescriptor::TimestampMicros => true,
            _ => false,
        }
    }

    /// Resolves a value without inner values, written under this type, to
    /// the reader's type.
    pub fn resolve_scalar(&self, reader: &TypeDescriptor, value: &AvromaticValue) -> (r: Option<
        AvromaticValue,
    >)
        ensures
            resolved(r) == resolve_scalar_spec(self@, reader@, value@),
    {
        let taken = match value {
            AvromaticValue::Null => matches!(self, TypeDescriptor::Null) && matches!(
                reader,
                TypeDescriptor::Null
            ),
            AvromaticValue::True | AvromaticValue::False => matches!(self, TypeDescriptor::Boolean)
                && matches!(reader, TypeDescriptor::Boolean),
            AvromaticValue::Long(n) => (self.is_int_like() && is_int(*n) && (reader.is_int_like()
                || reader.is_long_like())) || (self.is_long_like() && reader.is_long_like()),
            AvromaticValue::Float(_) => matches!(self, TypeDescriptor::Float) && matches!(
                reader,
                TypeDescriptor::Float
            ),
            AvromaticValue::Double(_) => matches!(self, TypeDescriptor::Double) && matches!(
                reader,
                TypeDescriptor::Double
            ),
            AvromaticValue::String(bytes) => {
                let textual = matches!(self, TypeDescriptor::String) || matches!(
                    self,
                    TypeDescriptor::Bytes
                );
                match reader {
                    TypeDescriptor::Bytes => textual,
                    TypeDescriptor::String => textual && is_utf8(bytes.as_slice()),
                    TypeDescriptor::Fixed(size) => {
                        let same = match self {
                            TypeDescriptor::Fixed(written) => *written == *size,
                            _ => false,
                        };
                        same && bytes.len() == *size
                    },
                    TypeDescriptor::Enum(symbols) => {
                        assert(reader@->Enum_0 =~= Seq::new(
                            symbols.len() as nat,
                            |i: int| symbols[i]@,
                        ));
                        matches!(self, TypeDescriptor::Enum(_)) && has_symbol(symbols, bytes)
                    },
                    _ => false,
                }
            },
            _ => false,
        };
        if taken {
            Some(value.duplicate())
        } else {
            None
        }
    }

    /// Resolves a value that was written under this type to the reader's
    /// type. The writer's record handles go by `writer_registry`, the
    /// reader's by `reader_registry`.
    ///
    /// Where no custom type of the reader's tree has a hook the result is
    /// exactly what `resolve_spec` states. Where one has, its hooks
    /// decide.
    pub fn resolve<H: CustomTypeHooks>(
        &self,
        reader: &TypeDescriptor,
        value: &AvromaticValue,
        writer_registry: &ModelRegistry,
        reader_registry: &ModelRegistry,
        hooks: &H,
    ) -> (r: Option<AvromaticValue>)
        ensures
            reader@.settled(reader_registry@) ==> resolved(r)
                == resolve_spec(
                self@,
                reader@,
                value@,
                writer_registry@,
                writer_registry@.len(),
                reader_registry@,
                reader_registry@.len(),
            ),
    {
        self.resolve_below(
            reader,
            value,
            writer_registry,
            writer_registry.models.len(),
            reader_registry,
            reader_registry.models.len(),
            hooks,
        )
    }

    /// As `resolve`, following the writer's record handles only below
    /// `wlevel` and the reader's only below `rlevel`.
    pub(crate) fn resolve_below<H: CustomTypeHooks>(
        &self,
        reader: &TypeDescriptor,
        value: &AvromaticValue,
        wreg: &ModelRegistry,
        wlevel: usize,
        rreg: &ModelRegistry,
        rlevel: usize,
        hooks: &H,
    ) -> (r: Option<AvromaticValue>)
        requires
            wlevel <= wreg@.len(),
            rlevel <= rreg@.len(),
        ensures
            reader@.settled(rreg@) ==> resolved(r) == resolve_spec(
                self@,
                reader@,
                value@,
                wreg@,
                wlevel as nat,
                rreg@,
                rlevel as nat,
            ),
        decreases wlevel, 1nat, self, reader, 0nat,
    {
        if let TypeDescriptor::Custom(custom, inner) = reader {
            return match self.resolve_below(inner, value, wreg, wlevel, rreg, rlevel, hooks) {
                None => None,
                Some(raw) => custom_attribute(inner.to_ruby(&raw), custom, hooks),
            };
        }
        if let TypeDescriptor::Union(_, written) = self {
            assert(self@->Union_1.len() == written.len());
            return match value {
                AvromaticValue::Union(index, inner) => {
                    if *index < written.len() {
                        assert(decreases_to!(self => self->Union_1));
                        assert(self@->Union_1[*index as int] == written[*index as int]@);
                        written[*index].resolve_below(
                            reader,
                            inner,
                            wreg,
                            wlevel,
                            rreg,
                            rlevel,
                            hooks,
                        )
                    } else {
                        None
                    }
                },
                _ => None,
            };
        }
        if let TypeDescriptor::Union(_, variants) = reader {
            assert(decreases_to!(reader => reader->Union_1));
            assert(reader@->Union_1 =~= Seq::new(variants.len() as nat, |i: int| variants[i]@));
            assert(reader@.settled(rreg@) ==> forall|i: int|
    0 <= i < variants.len() ==> (#[trigger] variants[i])@.settled(rreg@)) by {
    if reader@.settled(rreg@) {
        assert forall|i: int| 0 <= i < variants.len() implies (
        #[trigger] variants[i])@.settled(rreg@) by {
            assert(reader@->Union_1[i].hook_free());
            assert(reader@.record_free() ==> reader@->Union_1[i].record_free());
        }
    }
}
            return resolve_union(self, variants, value, wreg, wlevel, rreg, rlevel, hooks);
        }
        match self {
            TypeDescriptor::Array(written) => match (reader, value) {
                (TypeDescriptor::Array(read), AvromaticValue::Array(items)) => match resolve_array(
                    written,
                    read,
                    items,
                    wreg,
                    wlevel,
                    rreg,
                    rlevel,
                    hooks,
                ) {
                    Some(values) => Some(AvromaticValue::Array(values)),
                    None => None,
                },
                _ => None,
            },
            TypeDescriptor::Mapping(written) => match (reader, value) {
                (TypeDescriptor::Mapping(read), AvromaticValue::Mapping(entries)) => match resolve_map(
                    written,
                    read,
                    entries,
                    wreg,
                    wlevel,
                    rreg,
                    rlevel,
                    hooks,
                ) {
                    Some(values) => Some(AvromaticValue::Mapping(values)),
                    None => None,
                },
                _ => None,
            },
            TypeDescriptor::Record(written) => match (reader, value) {
                (TypeDescriptor::Record(read), AvromaticValue::Record(storage)) => {
                    if *written < wlevel && *read < rlevel {
                        let writer_model = &wreg.models[*written];
                        let reader_model = &rreg.models[*read];
                        assert(wreg@[*written as int] == writer_model@);
                        assert(rreg@[*read as int] == reader_model@);
                        match resolve_record(
                            &writer_model.descriptor,
                            &reader_model.descriptor,
                            storage,
                            wreg,
                            *written,
                            rreg,
                            *read,
                            hooks,
                        ) {
                            Some(resolved) => Some(AvromaticValue::Record(resolved)),
                            None => None,
                        }
                    } else {
                        None
                    }
                },
                _ => None,
            },
            _ => self.resolve_scalar(reader, value),
        }
    }
}

/// A value under a reader's union: under the first variant to which it
/// resolves.
pub(crate) fn resolve_union<H: CustomTypeHooks>(
    writer: &TypeDescriptor,
    variants: &Vec<TypeDescriptor>,
    value: &AvromaticValue,
    wreg: &ModelRegistry,
    wlevel: usize,
    rreg: &ModelRegistry,
    rlevel: usize,
    hooks: &H,
) -> (r: Option<AvromaticValue>)
    requires
        wlevel <= wreg@.len(),
        rlevel <= rreg@.len(),
    ensures
        (forall|i: int| 0 <= i < variants.len() ==> (#[trigger] variants[i])@.settled(rreg@)) ==> resolved(r) == resolve_first_variant(
            writer@,
            Seq::new(variants.len() as nat, |i: int| variants[i]@),
            0,
            value@,
            wreg@,
            wlevel as nat,
            rreg@,
            rlevel as nat,
        ),
    decreases wlevel, 1nat, writer, variants, 1nat,
{
    let ghost views = Seq::new(variants.len() as nat, |i: int| variants[i]@);
    let ghost plain = (forall|i: int| 0 <= i < variants.len() ==> (#[trigger] variants[i])@.settled(rreg@));
    let mut i: usize = 0;
    while i < variants.len()
        invariant
            wlevel <= wreg@.len(),
            rlevel <= rreg@.len(),
            plain == ((forall|i: int| 0 <= i < variants.len() ==> (#[trigger] variants[i])@.settled(rreg@))),
            views == Seq::new(variants.len() as nat, |i: int| variants[i]@),
            i <= variants.len(),
            plain ==> resolve_first_variant(
                writer@,
                views,
                0,
                value@,
                wreg@,
                wlevel as nat,
                rreg@,
                rlevel as nat,
            ) == resolve_first_variant(
                writer@,
                views,
                i as nat,
                value@,
                wreg@,
                wlevel as nat,
                rreg@,
                rlevel as nat,
            ),
        decreases variants.len() - i,
    {
        match writer.resolve_below(&variants[i], value, wreg, wlevel, rreg, rlevel, hooks) {
            Some(taken) => {
                return Some(AvromaticValue::Union(i, Box::new(taken)));
            },
            None => {},
        }
        i += 1;
    }
    None
}

/// The items of an array, each resolved.
pub(crate) fn resolve_array<H: CustomTypeHooks>(
    written: &TypeDescriptor,
    read: &TypeDescriptor,
    items: &Vec<AvromaticValue>,
    wreg: &ModelRegistry,
    wlevel: usize,
    rreg: &ModelRegistry,
    rlevel: usize,
    hooks: &H,
) -> (r: Option<Vec<AvromaticValue>>)
    requires
        wlevel <= wreg@.len(),
        rlevel <= rreg@.len(),
    ensures
        read@.settled(rreg@) ==> match r {
            Some(values) => resolve_items(
                written@,
                read@,
                AvromaticValue::Array(*items)@->Array_0,
                0,
                Seq::empty(),
                wreg@,
                wlevel as nat,
                rreg@,
                rlevel as nat,
            ) == Some(AvromaticValue::Array(values)@->Array_0),
            None => resolve_items(
                written@,
                read@,
                AvromaticValue::Array(*items)@->Array_0,
                0,
                Seq::empty(),
                wreg@,
                wlevel as nat,
                rreg@,
                rlevel as nat,
            ) is None,
        },
    decreases wlevel, 1nat, written, read, 1nat,
{
    let ghost plain = read@.settled(rreg@);
    let ghost views = AvromaticValue::Array(*items)@->Array_0;
    let ghost whole = resolve_items(
        written@,
        read@,
        views,
        0,
        Seq::empty(),
        wreg@,
        wlevel as nat,
        rreg@,
        rlevel as nat,
    );
    let ghost mut acc: Seq<ValueView> = Seq::empty();
    let mut out: Vec<AvromaticValue> = Vec::new();
    let mut i: usize = 0;
    while i < items.len()
        invariant
            wlevel <= wreg@.len(),
            rlevel <= rreg@.len(),
            plain == (read@.settled(rreg@)),
            views == AvromaticValue::Array(*items)@->Array_0,
            views.len() == items.len(),
            forall|j: int| 0 <= j < items.len() ==> views[j] == (#[trigger] items[j])@,
            whole == resolve_items(
                written@,
                read@,
                views,
                0,
                Seq::empty(),
                wreg@,
                wlevel as nat,
                rreg@,
                rlevel as nat,
            ),
            i <= items.len(),
            acc.len() == out.len(),
            forall|j: int| 0 <= j < out.len() ==> acc[j] == (#[trigger] out[j])@,
            plain ==> whole == resolve_items(
                written@,
                read@,
                views,
                i as nat,
                acc,
                wreg@,
                wlevel as nat,
                rreg@,
                rlevel as nat,
            ),
        decreases items.len() - i,
    {
        match written.resolve_below(read, &items[i], wreg, wlevel, rreg, rlevel, hooks) {
            None => {
                return None;
            },
            Some(item) => {
                proof {
                    acc = acc.push(item@);
                }
                out.push(item);
            },
        }
        i += 1;
    }
    assert(AvromaticValue::Array(out)@->Array_0 =~= acc);
    Some(out)
}

/// The entries of a map, each value resolved under its key.
pub(crate) fn resolve_map<H: CustomTypeHooks>(
    written: &TypeDescriptor,
    read: &TypeDescriptor,
    entries: &Vec<(Vec<u8>, AvromaticValue)>,
    wreg: &ModelRegistry,
    wlevel: usize,
    rreg: &ModelRegistry,
    rlevel: usize,
    hooks: &H,
) -> (r: Option<Vec<(Vec<u8>, AvromaticValue)>>)
    requires
        wlevel <= wreg@.len(),
        rlevel <= rreg@.len(),
    ensures
        read@.settled(rreg@) ==> match r {
            Some(values) => resolve_entries(
                written@,
                read@,
                AvromaticValue::Mapping(*entries)@->Mapping_0,
                0,
                Seq::empty(),
                wreg@,
                wlevel as nat,
                rreg@,
                rlevel as nat,
            ) == Some(AvromaticValue::Mapping(values)@->Mapping_0),
            None => resolve_entries(
                written@,
                read@,
                AvromaticValue::Mapping(*entries)@->Mapping_0,
                0,
                Seq::empty(),
                wreg@,
                wlevel as nat,
                rreg@,
                rlevel as nat,
            ) is None,
        },
    decreases wlevel, 1nat, written, read, 1nat,
{
    let ghost plain = read@.settled(rreg@);
    let ghost views = AvromaticValue::Mapping(*entries)@->Mapping_0;
    let ghost whole = resolve_entries(
        written@,
        read@,
        views,
        0,
        Seq::empty(),
        wreg@,
        wlevel as nat,
        rreg@,
        rlevel as nat,
    );
    let ghost mut acc: Seq<(Seq<u8>, ValueView)> = Seq::empty();
    let mut out: Vec<(Vec<u8>, AvromaticValue)> = Vec::new();
    let mut i: usize = 0;
    while i < entries.len()
        invariant
            wlevel <= wreg@.len(),
            rlevel <= rreg@.len(),
            plain == (read@.settled(rreg@)),
            views == AvromaticValue::Mapping(*entries)@->Mapping_0,
            views.len() == entries.len(),
            forall|j: int|
                0 <= j < entries.len() ==> views[j] == ((#[trigger] entries[j]).0@, entries[j].1@),
            whole == resolve_entries(
                written@,
                read@,
                views,
                0,
                Seq::empty(),
                wreg@,
                wlevel as nat,
                rreg@,
                rlevel as nat,
            ),
            i <= entries.len(),
            acc.len() == out.len(),
            forall|j: int| 0 <= j < out.len() ==> acc[j] == ((#[trigger] out[j]).0@, out[j].1@),
            plain ==> whole == resolve_entries(
                written@,
                read@,
                views,
                i as nat,
                acc,
                wreg@,
                wlevel as nat,
                rreg@,
                rlevel as nat,
            ),
        decreases entries.len() - i,
    {
        match written.resolve_below(read, &entries[i].1, wreg, wlevel, rreg, rlevel, hooks) {
            None => {
                return None;
            },
            Some(item) => {
                let key = clone_bytes(&entries[i].0);
                proof {
                    acc = acc.push((key@, item@));
                }
                out.push((key, item));
            },
        }
        i += 1;
    }
    assert(AvromaticValue::Mapping(out)@->Mapping_0 =~= acc);
    Some(out)
}

/// The attributes of a record as the reader has them, from the
/// attributes that were read under the writer's record.
pub(crate) fn resolve_record<H: CustomTypeHooks>(
    written: &RecordDescriptor,
    read: &RecordDescriptor,
    storage: &ModelStorage,
    wreg: &ModelRegistry,
    wlevel: usize,
    rreg: &ModelRegistry,
    rlevel: usize,
    hooks: &H,
) -> (r: Option<ModelStorage>)
    requires
        wlevel <= wreg@.len(),
        rlevel <= rreg@.len(),
    ensures
        record_settled(read@, rreg@) ==> match r {
            Some(resolved) => resolve_fields(
                written@,
                read@,
                0,
                storage@,
                Seq::empty(),
                wreg@,
                wlevel as nat,
                rreg@,
                rlevel as nat,
            ) == Some(resolved@),
            None => resolve_fields(
                written@,
                read@,
                0,
                storage@,
                Seq::empty(),
                wreg@,
                wlevel as nat,
                rreg@,
                rlevel as nat,
            ) is None,
        },
    decreases wlevel + 1, 0nat, written, read, 0nat,
{
    let ghost plain = record_settled(read@, rreg@);
    let ghost whole = resolve_fields(
        written@,
        read@,
        0,
        storage@,
        Seq::empty(),
        wreg@,
        wlevel as nat,
        rreg@,
        rlevel as nat,
    );
    let ghost mut acc: Seq<(Seq<char>, ValueView)> = Seq::empty();
    let mut attributes: Vec<(String, AvromaticValue)> = Vec::new();
    let null = AvromaticValue::Null;
    let mut i: usize = 0;
    while i < read.attributes.len()
        invariant
            wlevel <= wreg@.len(),
            rlevel <= rreg@.len(),
            plain == (record_settled(read@, rreg@)),
            null@ == ValueView::Null,
            whole == resolve_fields(
                written@,
                read@,
                0,
                storage@,
                Seq::empty(),
                wreg@,
                wlevel as nat,
                rreg@,
                rlevel as nat,
            ),
            i <= read.attributes.len(),
            read@.len() == read.attributes.len(),
            written@.len() == written.attributes.len(),
            acc.len() == attributes.len(),
            forall|j: int|
                0 <= j < attributes.len() ==> acc[j] == (
                    (#[trigger] attributes[j]).0@,
                    attributes[j].1@,
                ),
            plain ==> whole == resolve_fields(
                written@,
                read@,
                i as nat,
                storage@,
                acc,
                wreg@,
                wlevel as nat,
                rreg@,
                rlevel as nat,
            ),
        decreases read.attributes.len() - i,
    {
        let field = &read.attributes[i];
        assert(read@[i as int] == (field.0@, field.1@));
        let taken = match find_field(written, &field.0) {
            Some(index) => {
                let source = &written.attributes[index];
                assert(written@[index as int] == (source.0@, source.1@));
                let given: &AvromaticValue = match find_attribute(storage, &field.0) {
                    Some(value) => value,
                    None => &null,
                };
                source.1.type_descriptor.resolve_below(
                    &field.1.type_descriptor,
                    given,
                    wreg,
                    wlevel,
                    rreg,
                    rlevel,
                    hooks,
                )
            },
            None => match &field.1.default {
                Some(default) => Some(default.duplicate()),
                None => None,
            },
        };
        match taken {
            None => {
                return None;
            },
            Some(value) => {
                proof {
                    acc = acc.push((field.0@, value@));
                }
                attributes.push((field.0.clone(), value));
            },
        }
        i += 1;
    }
    let resolved = ModelStorage { attributes };
    assert(resolved@ =~= acc);
    Some(resolved)
}

} // verus!
