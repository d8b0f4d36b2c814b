//! Building the descriptor tree from a compiled schema.
//!
//! The builder goes through the schema by kind. A named record is
//! resolved through the registry: a name that is registered is reused,
//! once the fingerprint of the new schema has been held against the
//! registered one; a new name has its fields built and is registered
//! behind the models that its fields registered. A schema whose full name
//! has a registered extension is wrapped as a custom type.

use crate::custom_types::{fetch_spec, CustomTypeHooks, CustomTypeRegistry};
use crate::descriptors::{
    record_hook_free,
    record_handles_below,
    registry_hook_free,
    AttributeDescriptor,
    AttributeView,
    CustomView,
    DescriptorView,
    ModelView,
    RecordDescriptor,
    RecordView,
    RegistryView,
    TypeDescriptor,
};
use crate::literal::attribute_spec;
use crate::model_pool::{lookup_spec, registry_key_spec, ModelRegistry};
use crate::schema::{SchemaNode, SchemaField, SchemaKind};
use crate::values::bytes_equal;
use vstd::prelude::*;

verus! {

/// Why a schema could not be compiled.
#[derive(Clone, Copy, Debug, PartialEq, Eq, Structural)]
pub enum SchemaError {
    /// A node lacks what its kind calls for.
    InvalidSchema,
    /// A union has a null variant that is not its first.
    NullNotFirst,
    /// A field's default is not of the field's type.
    InvalidDefault,
    /// The record's name is registered, by the model of this handle, with
    /// a schema of another fingerprint.
    FingerprintMismatch(usize),
    /// The key field of this index has another type than the value field
    /// of its name.
    ConflictingField(usize),
    /// A model was asked of a schema that is no record.
    NotARecord,
}

/// What building leaves: the descriptor or the error, and the registry
/// with the models registered on the way.
pub struct Built {
    pub result: Result<DescriptorView, SchemaError>,
    pub registry: RegistryView,
}

/// As `Built`, for a list of descriptors.
pub struct BuiltList {
    pub result: Result<Seq<DescriptorView>, SchemaError>,
    pub registry: RegistryView,
}

/// As `Built`, for the fields of a record.
pub struct BuiltRecord {
    pub result: Result<RecordView, SchemaError>,
    pub registry: RegistryView,
}

/// Whether `after` holds the models of `before`, under their handles.
pub open spec fn extends(before: RegistryView, after: RegistryView) -> bool {
    before.len() <= after.len() && forall|h: int|
        0 <= h < before.len() ==> #[trigger] after[h] == before[h]
}

/// The descriptor of a kind that needs nothing from its node.
pub open spec fn simple_descriptor(kind: SchemaKind) -> Option<DescriptorView> {
    match kind {
        SchemaKind::Null => Some(DescriptorView::Null),
        SchemaKind::Boolean => Some(DescriptorView::Boolean),
        SchemaKind::Int => Some(DescriptorView::Int),
        SchemaKind::Long => Some(DescriptorView::Long),
        SchemaKind::Float => Some(DescriptorView::Float),
        SchemaKind::Double => Some(DescriptorView::Double),
        SchemaKind::Bytes => Some(DescriptorView::Bytes),
        SchemaKind::String => Some(DescriptorView::String),
        SchemaKind::Date => Some(DescriptorView::Date),
        SchemaKind::TimestampMillis => Some(DescriptorView::TimestampMillis),
        SchemaKind::TimestampMicros => Some(DescriptorView::TimestampMicros),
        _ => None,
    }
}

/// Whether a variant from `from` on, other than the first of all, is
/// null.
pub open spec fn null_misplaced(variants: &Vec<SchemaNode>, from: nat) -> bool
    decreases variants.len() - from,
{
    if from >= variants.len() {
        false
    } else if from > 0 && variants[from as int].kind == SchemaKind::Null {
        true
    } else {
        null_misplaced(variants, from + 1)
    }
}

/// The reference map of a union: each variant's reference name with its
/// index.
pub open spec fn references(variants: &Vec<SchemaNode>) -> Seq<(Seq<char>, usize)> {
    Seq::new(variants.len() as nat, |i: int| (variants[i].reference_spec(), i as usize))
}

/// `base`, wrapped as a custom type where the schema's full name has a
/// registered extension.
pub open spec fn wrapped(schema: &SchemaNode, base: DescriptorView, customs: Seq<CustomView>) -> DescriptorView {
    match schema.fullname {
        Some(name) => match fetch_spec(customs, name@, 0) {
            Some(custom) => DescriptorView::Custom(custom, Box::new(base)),
            None => base,
        },
        None => base,
    }
}

/// The descriptor that a schema compiles to, or the error, and the
/// registry afterwards.
///
/// Where a field has a default of a custom type with a hook, the hook
/// decides what it resolves to, which this function cannot say: the
/// builder meets it where no registered extension has a hook.
pub open spec fn build_spec(
    schema: &SchemaNode,
    reg: RegistryView,
    prefix: Option<Seq<char>>,
    customs: Seq<CustomView>,
) -> Built
    decreases schema, 0nat,
{
    let base = match schema.kind {
        SchemaKind::Fixed => match schema.fixed_size {
            Some(size) => Built { result: Ok(DescriptorView::Fixed(size)), registry: reg },
            None => Built { result: Err(SchemaError::InvalidSchema), registry: reg },
        },
        SchemaKind::Enum => match schema.symbols {
            Some(symbols) => Built {
                result: Ok(
                    DescriptorView::Enum(Seq::new(symbols.len() as nat, |i: int| symbols[i]@)),
                ),
                registry: reg,
            },
            None => Built { result: Err(SchemaError::InvalidSchema), registry: reg },
        },
        SchemaKind::Array | SchemaKind::Mapping => match schema.children {
            Some(children) => if children.len() == 1 {
                let inner = build_spec(&children[0], reg, prefix, customs);
                match inner.result {
                    Ok(d) => Built {
                        result: Ok(
                            if schema.kind == SchemaKind::Array {
                                DescriptorView::Array(Box::new(d))
                            } else {
                                DescriptorView::Mapping(Box::new(d))
                            },
                        ),
                        registry: inner.registry,
                    },
                    Err(e) => Built { result: Err(e), registry: inner.registry },
                }
            } else {
                Built { result: Err(SchemaError::InvalidSchema), registry: reg }
            },
            None => Built { result: Err(SchemaError::InvalidSchema), registry: reg },
        },
        SchemaKind::Union => match schema.children {
            Some(variants) => if null_misplaced(&variants, 0) {
                Built { result: Err(SchemaError::NullNotFirst), registry: reg }
            } else {
                let built = build_variants(&variants, 0, Seq::empty(), reg, prefix, customs);
                match built.result {
                    Ok(descriptors) => Built {
                        result: Ok(DescriptorView::Union(references(&variants), descriptors)),
                        registry: built.registry,
                    },
                    Err(e) => Built { result: Err(e), registry: built.registry },
                }
            },
            None => Built { result: Err(SchemaError::InvalidSchema), registry: reg },
        },
        SchemaKind::Record => match schema.fullname {
            None => Built { result: Err(SchemaError::InvalidSchema), registry: reg },
            Some(name) => {
                let key = registry_key_spec(prefix, name@);
                match lookup_spec(reg, key, 0) {
                    Some(handle) => if reg[handle as int].fingerprint == schema.fingerprint_spec() {
                        Built { result: Ok(DescriptorView::Record(handle)), registry: reg }
                    } else {
                        Built {
                            result: Err(SchemaError::FingerprintMismatch(handle)),
                            registry: reg,
                        }
                    },
                    None => match schema.fields {
                        None => Built { result: Err(SchemaError::InvalidSchema), registry: reg },
                        Some(fields) => {
                            let built = build_fields(
                                &fields,
                                0,
                                Seq::empty(),
                                reg,
                                prefix,
                                customs,
                            );
                            match built.result {
                                Err(e) => Built { result: Err(e), registry: built.registry },
                                Ok(record) => Built {
                                    result: Ok(
                                        DescriptorView::Record(built.registry.len() as usize),
                                    ),
                                    registry: built.registry.push(
                                        ModelView {
                                            key,
                                            fingerprint: schema.fingerprint_spec(),
                                            record,
                                        },
                                    ),
                                },
                            }
                        },
                    },
                }
            },
        },
        _ => Built {
            result: match simple_descriptor(schema.kind) {
                Some(d) => Ok(d),
                None => Err(SchemaError::InvalidSchema),
            },
            registry: reg,
        },
    };
    match base.result {
        Ok(d) => Built { result: Ok(wrapped(schema, d, customs)), registry: base.registry },
        Err(e) => base,
    }
}

/// The descriptors of the variants from `from` on, behind `acc`, built
/// left to right.
pub open spec fn build_variants(
    variants: &Vec<SchemaNode>,
    from: nat,
    acc: Seq<DescriptorView>,
    reg: RegistryView,
    prefix: Option<Seq<char>>,
    customs: Seq<CustomView>,
) -> BuiltList
    decreases variants, variants.len() - from + 1,
{
    if from >= variants.len() {
        BuiltList { result: Ok(acc), registry: reg }
    } else {
        let built = build_spec(&variants[from as int], reg, prefix, customs);
        match built.result {
            Err(e) => BuiltList { result: Err(e), registry: built.registry },
            Ok(d) => build_variants(variants, from + 1, acc.push(d), built.registry, prefix, customs),
        }
    }
}

/// `record` with `attribute` under `name`: in the place of a field with
/// that name, at the end where there is none.
pub open spec fn record_insert(
    record: RecordView,
    name: Seq<char>,
    attribute: AttributeView,
    from: nat,
) -> RecordView
    decreases record.len() - from,
{
    if from >= record.len() {
        record.push((name, attribute))
    } else if record[from as int].0 == name {
        record.update(from as int, (name, attribute))
    } else {
        record_insert(record, name, attribute, from + 1)
    }
}

/// Whether no two fields of a record share a name.
pub open spec fn fields_unique(record: RecordView) -> bool {
    forall|i: int, j: int|
        0 <= i < j < record.len() ==> (#[trigger] record[i]).0 != (#[trigger] record[j]).0
}

/// Putting a field into a record keeps every other field in its place,
/// and keeps a record without a name twice so.
pub proof fn record_insert_keeps(
    record: RecordView,
    name: Seq<char>,
    attribute: AttributeView,
    from: nat,
)
    requires
        forall|i: int| 0 <= i < from && i < record.len() ==> (#[trigger] record[i]).0 != name,
    ensures
        record_insert(record, name, attribute, from).len() >= record.len(),
        forall|i: int|
            0 <= i < record_insert(record, name, attribute, from).len() ==> (#[trigger] record_insert(
                record,
                name,
                attribute,
                from,
            )[i]) == (name, attribute) || (i < record.len() && record_insert(
                record,
                name,
                attribute,
                from,
            )[i] == record[i]),
        fields_unique(record) ==> fields_unique(record_insert(record, name, attribute, from)),
    decreases record.len() - from,
{
    let after = record_insert(record, name, attribute, from);
    if from >= record.len() {
        if fields_unique(record) {
            assert forall|i: int, j: int| 0 <= i < j < after.len() implies (#[trigger] after[i]).0
                != (#[trigger] after[j]).0 by {
                if j < record.len() {
                    assert(after[i] == record[i] && after[j] == record[j]);
                } else {
                    assert(after[i] == record[i]);
                }
            }
        }
    } else if record[from as int].0 == name {
        if fields_unique(record) {
            assert forall|i: int, j: int| 0 <= i < j < after.len() implies (#[trigger] after[i]).0
                != (#[trigger] after[j]).0 by {
                assert(after[i].0 == record[i].0 && after[j].0 == record[j].0);
            }
        }
    } else {
        record_insert_keeps(record, name, attribute, from + 1);
    }
}

/// The attributes of the fields from `from` on, put into `acc`: each
/// field its type, and its default resolved under that type. A name that
/// is declared twice keeps its first place and takes the later attribute.
pub open spec fn build_fields(
    fields: &Vec<SchemaField>,
    from: nat,
    acc: RecordView,
    reg: RegistryView,
    prefix: Option<Seq<char>>,
    customs: Seq<CustomView>,
) -> BuiltRecord
    decreases fields, fields.len() - from + 1,
{
    if from >= fields.len() {
        BuiltRecord { result: Ok(acc), registry: reg }
    } else {
        let field = &fields[from as int];
        let built = build_spec(&field.schema, reg, prefix, customs);
        match built.result {
            Err(e) => BuiltRecord { result: Err(e), registry: built.registry },
            Ok(d) => match field.default {
                None => build_fields(
                    fields,
                    from + 1,
                    record_insert(
                        acc,
                        field.name@,
                        AttributeView { type_descriptor: d, default: None },
                        0,
                    ),
                    built.registry,
                    prefix,
                    customs,
                ),
                Some(literal) => match attribute_spec(
                    d,
                    &literal,
                    built.registry,
                    built.registry.len(),
                ) {
                    None => BuiltRecord {
                        result: Err(SchemaError::InvalidDefault),
                        registry: built.registry,
                    },
                    Some(value) => build_fields(
                        fields,
                        from + 1,
                        record_insert(
                            acc,
                            field.name@,
                            AttributeView { type_descriptor: d, default: Some(value) },
                            0,
                        ),
                        built.registry,
                        prefix,
                        customs,
                    ),
                },
            },
        }
    }
}

/// Handles that are below a level are below every level above it.
pub proof fn handles_below_rises(d: DescriptorView, level: nat, above: nat)
    requires
        d.handles_below(level),
        level <= above,
    ensures
        d.handles_below(above),
    decreases d,
{
    match d {
        DescriptorView::Array(inner) => handles_below_rises(*inner, level, above),
        DescriptorView::Mapping(inner) => handles_below_rises(*inner, level, above),
        DescriptorView::Custom(_, inner) => handles_below_rises(*inner, level, above),
        DescriptorView::Union(_, variants) => {
            assert forall|i: int| 0 <= i < variants.len() implies (#[trigger] variants[i]).handles_below(
                above,
            ) by {
                handles_below_rises(variants[i], level, above);
            }
        },
        _ => {},
    }
}

/// A null is misplaced exactly where a variant behind the first is null.
pub proof fn null_misplaced_means(variants: &Vec<SchemaNode>, from: nat)
    ensures
        null_misplaced(variants, from) <==> exists|i: int|
            from <= i < variants.len() && 0 < i && (#[trigger] variants[i]).kind
                == SchemaKind::Null,
    decreases variants.len() - from,
{
    if from < variants.len() {
        null_misplaced_means(variants, from + 1);
        if from > 0 && variants[from as int].kind == SchemaKind::Null {
            assert(from <= from < variants.len() && 0 < from && variants[from as int].kind
                == SchemaKind::Null);
        } else if null_misplaced(variants, from + 1) {
            let i = choose|i: int|
                from + 1 <= i < variants.len() && 0 < i && (#[trigger] variants[i]).kind
                    == SchemaKind::Null;
            assert(from <= i < variants.len() && 0 < i && variants[i].kind == SchemaKind::Null);
        } else {
            assert forall|i: int| from <= i < variants.len() && 0 < i implies (
            #[trigger] variants[i]).kind != SchemaKind::Null by {
                if i > from {
                    assert(from + 1 <= i);
                }
            }
        }
    }
}

/// A union that compiles has no null behind its first variant.
pub proof fn null_comes_first(
    schema: &SchemaNode,
    reg: RegistryView,
    prefix: Option<Seq<char>>,
    customs: Seq<CustomView>,
)
    requires
        schema.kind == SchemaKind::Union,
        build_spec(schema, reg, prefix, customs).result is Ok,
    ensures
        schema.children matches Some(variants) && (forall|i: int|
            0 < i < variants.len() ==> (#[trigger] variants[i]).kind != SchemaKind::Null),
{
    let variants = schema.children->Some_0;
    null_misplaced_means(&variants, 0);
}

proof fn lookup_after_push(registry: RegistryView, model: ModelView, from: nat)
    requires
        from <= registry.len() < usize::MAX,
        lookup_spec(registry, model.key, from) is None,
    ensures
        lookup_spec(registry.push(model), model.key, from) == Some(registry.len() as usize),
    decreases registry.len() - from,
{
    if from < registry.len() {
        assert(registry.push(model)[from as int] == registry[from as int]);
        lookup_after_push(registry, model, from + 1);
    }
}

/// The fingerprint guard: once a record schema has been built, building
/// another schema under the same full name and with another fingerprint
/// fails with a mismatch, and leaves the registry as it was.
///
/// Left out is a first schema that has, among its own fields, a record of
/// its own name: there the name stands for that inner record.
pub proof fn fingerprint_guard(
    first: &SchemaNode,
    second: &SchemaNode,
    reg: RegistryView,
    prefix: Option<Seq<char>>,
    customs: Seq<CustomView>,
)
    requires
        first.kind == SchemaKind::Record,
        second.kind == SchemaKind::Record,
        first.fullname is Some,
        second.fullname is Some,
        first.fullname->Some_0@ == second.fullname->Some_0@,
        first.fingerprint_spec() != second.fingerprint_spec(),
        build_spec(first, reg, prefix, customs).result is Ok,
        build_spec(first, reg, prefix, customs).registry.len() < usize::MAX,
        first.fields matches Some(fields) ==> lookup_spec(
            reg,
            registry_key_spec(prefix, first.fullname->Some_0@),
            0,
        ) is None ==> lookup_spec(
            build_fields(&fields, 0, Seq::empty(), reg, prefix, customs).registry,
            registry_key_spec(prefix, first.fullname->Some_0@),
            0,
        ) is None,
    ensures
        build_spec(
            second,
            build_spec(first, reg, prefix, customs).registry,
            prefix,
            customs,
        ).result matches Err(SchemaError::FingerprintMismatch(_)),
        build_spec(second, build_spec(first, reg, prefix, customs).registry, prefix, customs).registry
            == build_spec(first, reg, prefix, customs).registry,
{
    let key = registry_key_spec(prefix, first.fullname->Some_0@);
    let after = build_spec(first, reg, prefix, customs).registry;
    match lookup_spec(reg, key, 0) {
        Some(handle) => {
            assert(after == reg);
        },
        None => {
            let fields = first.fields->Some_0;
            let inner = build_fields(&fields, 0, Seq::empty(), reg, prefix, customs);
            let model = ModelView {
                key,
                fingerprint: first.fingerprint_spec(),
                record: inner.result->Ok_0,
            };
            assert(after == inner.registry.push(model));
            lookup_after_push(inner.registry, model, 0);
            assert(after[inner.registry.len() as int] == model);
        },
    }
}

/// The extension that is registered for the schema's full name.
pub open spec fn extension_of(schema: &SchemaNode, customs: Seq<CustomView>) -> Option<CustomView> {
    match schema.fullname {
        Some(name) => fetch_spec(customs, name@, 0),
        None => None,
    }
}

/// What holds of the model of a record schema whatever the hooks do. A
/// schema without a name makes none. A registered name gives its handle
/// where the fingerprints agree and a mismatch where they differ, and
/// leaves the registry as it was. A new name is registered last, under
/// its key and with the schema's fingerprint.
pub open spec fn model_outline(
    schema: &SchemaNode,
    before: RegistryView,
    prefix: Option<Seq<char>>,
    result: Result<DescriptorView, SchemaError>,
    after: RegistryView,
) -> bool {
    match schema.fullname {
        None => result == Err::<DescriptorView, SchemaError>(SchemaError::InvalidSchema) && after
            == before,
        Some(name) => {
            let key = registry_key_spec(prefix, name@);
            match lookup_spec(before, key, 0) {
                Some(handle) => after == before && result == validated(before, handle, schema),
                None => match schema.fields {
                    None => result == Err::<DescriptorView, SchemaError>(
                        SchemaError::InvalidSchema,
                    ) && after == before,
                    Some(_) => match result {
                        Ok(d) => after.len() > 0 && d == DescriptorView::Record(
                            (after.len() - 1) as usize,
                        ) && after.last().key == key && after.last().fingerprint
                            == schema.fingerprint_spec(),
                        Err(_) => true,
                    },
                },
            }
        },
    }
}

/// What holds of the base descriptor of a union schema whatever the
/// hooks do. A union without variants is malformed, one with a null
/// behind its first variant is refused, and both leave the registry as
/// it was; any other that compiles has its variants in declared order
/// behind their reference map.
pub open spec fn union_outline(
    schema: &SchemaNode,
    before: RegistryView,
    result: Result<DescriptorView, SchemaError>,
    after: RegistryView,
) -> bool {
    match schema.children {
        None => result == Err::<DescriptorView, SchemaError>(SchemaError::InvalidSchema) && after
            == before,
        Some(variants) => if null_misplaced(&variants, 0) {
            result == Err::<DescriptorView, SchemaError>(SchemaError::NullNotFirst) && after
                == before
        } else {
            match result {
                Ok(d) => d matches DescriptorView::Union(refs, descriptors) && refs == references(
                    &variants,
                ) && descriptors.len() == variants.len(),
                Err(_) => true,
            }
        },
    }
}

/// What holds of the base descriptor of a schema, before an extension
/// wraps it, whatever the hooks do.
pub open spec fn base_outline(
    schema: &SchemaNode,
    before: RegistryView,
    prefix: Option<Seq<char>>,
    base: Result<DescriptorView, SchemaError>,
    after: RegistryView,
) -> bool {
    match schema.kind {
        SchemaKind::Fixed => after == before && base == (match schema.fixed_size {
            Some(size) => Ok::<DescriptorView, SchemaError>(DescriptorView::Fixed(size)),
            None => Err::<DescriptorView, SchemaError>(SchemaError::InvalidSchema),
        }),
        SchemaKind::Enum => after == before && base == (match schema.symbols {
            Some(symbols) => Ok::<DescriptorView, SchemaError>(
                DescriptorView::Enum(Seq::new(symbols.len() as nat, |i: int| symbols[i]@)),
            ),
            None => Err::<DescriptorView, SchemaError>(SchemaError::InvalidSchema),
        }),
        SchemaKind::Array | SchemaKind::Mapping => if schema.children matches Some(children)
            && children.len() == 1 {
            match base {
                Ok(d) => if schema.kind == SchemaKind::Array {
                    d is Array
                } else {
                    d is Mapping
                },
                Err(_) => true,
            }
        } else {
            base == Err::<DescriptorView, SchemaError>(SchemaError::InvalidSchema) && after
                == before
        },
        SchemaKind::Union => union_outline(schema, before, base, after),
        SchemaKind::Record => model_outline(schema, before, prefix, base, after),
        _ => after == before && base == (match simple_descriptor(schema.kind) {
            Some(d) => Ok::<DescriptorView, SchemaError>(d),
            None => Err::<DescriptorView, SchemaError>(SchemaError::InvalidSchema),
        }),
    }
}

/// The descriptor that an extension wraps, and a descriptor itself where
/// no extension is registered for the schema.
pub open spec fn unwrapped(schema: &SchemaNode, d: DescriptorView, customs: Seq<CustomView>) -> DescriptorView {
    match d {
        DescriptorView::Custom(_, inner) => if extension_of(schema, customs) is Some {
            *inner
        } else {
            d
        },
        _ => d,
    }
}

/// What holds of every build, whatever the hooks do: a descriptor built
/// is its base descriptor, wrapped as a custom type exactly where the
/// schema's full name has a registered extension, and the base
/// descriptor and the registry are as `base_outline` says.
pub open spec fn build_outline(
    schema: &SchemaNode,
    before: RegistryView,
    prefix: Option<Seq<char>>,
    customs: Seq<CustomView>,
    result: Result<DescriptorView, SchemaError>,
    after: RegistryView,
) -> bool {
    match result {
        Ok(d) => d == wrapped(schema, unwrapped(schema, d, customs), customs) && base_outline(
            schema,
            before,
            prefix,
            Ok(unwrapped(schema, d, customs)),
            after,
        ),
        Err(e) => base_outline(schema, before, prefix, Err(e), after),
    }
}

/// What was built, as the contracts speak of it.
pub open spec fn built(r: Result<TypeDescriptor, SchemaError>, registry: RegistryView) -> Built {
    Built {
        result: match r {
            Ok(d) => Ok(d@),
            Err(e) => Err(e),
        },
        registry,
    }
}

/// What holds of the registry after any build: it is well formed if it
/// was, keeps its prefix and the models it had, and holds every model
/// that the descriptor built refers to.
pub open spec fn registry_kept(
    before: &ModelRegistry,
    after: &ModelRegistry,
    result: Result<DescriptorView, SchemaError>,
) -> bool {
    &&& before.wf() ==> after.wf()
    &&& after.prefix == before.prefix
    &&& extends(before@, after@)
    &&& result matches Ok(d) ==> d.handles_below(after@.len())
}

/// Whether neither the registry nor the extensions bring in a hook.
pub open spec fn plain_build(registry: RegistryView, customs: Seq<CustomView>) -> bool {
    registry_hook_free(registry) && forall|i: int|
        0 <= i < customs.len() ==> (#[trigger] customs[i]).hookless()
}

/// What `fetch_spec` finds is registered.
pub proof fn fetched_is_registered(customs: Seq<CustomView>, name: Seq<char>, from: nat)
    ensures
        fetch_spec(customs, name, from) matches Some(custom) ==> exists|i: int|
            from <= i < customs.len() && #[trigger] customs[i] == custom,
    decreases customs.len() - from,
{
    if from < customs.len() {
        if customs[from as int].name == name {
            assert(customs[from as int] == fetch_spec(customs, name, from)->Some_0);
        } else {
            fetched_is_registered(customs, name, from + 1);
            if fetch_spec(customs, name, from + 1) is Some {
                let i = choose|i: int|
                    from + 1 <= i < customs.len() && #[trigger] customs[i] == fetch_spec(
                        customs,
                        name,
                        from + 1,
                    )->Some_0;
                assert(from <= i < customs.len() && customs[i] == fetch_spec(
                    customs,
                    name,
                    from,
                )->Some_0);
            }
        }
    }
}

impl TypeDescriptor {
    /// Compiles a schema into its descriptor, registering the record
    /// models it meets.
    ///
    /// Whatever the hooks do, the outcome is as `build_outline` says: the
    /// descriptor is wrapped exactly where an extension is registered for
    /// the schema's name, a malformed node and a misplaced null are
    /// refused, and a record goes through the registry. Where no
    /// registered extension has a hook the outcome is exactly what
    /// `build_spec` states: the descriptor or the error, and the registry.
    pub fn build<H: CustomTypeHooks>(
        schema: &SchemaNode,
        registry: &mut ModelRegistry,
        custom_types: &CustomTypeRegistry,
        hooks: &H,
    ) -> (r: Result<TypeDescriptor, SchemaError>)
        ensures
            registry_kept(old(registry), final(registry), built(r, final(registry)@).result),
            build_outline(
                schema,
                old(registry)@,
                old(registry).prefix_spec(),
                custom_types@,
                built(r, final(registry)@).result,
                final(registry)@,
            ),
            plain_build(old(registry)@, custom_types@) ==> {
                &&& built(r, final(registry)@) == build_spec(
                    schema,
                    old(registry)@,
                    old(registry).prefix_spec(),
                    custom_types@,
                )
                &&& registry_hook_free(final(registry)@)
                &&& (r matches Ok(d) ==> d@.hook_free())
            },
        decreases schema, 2nat,
    {
        let base = match schema.kind {
            SchemaKind::Fixed => match schema.fixed_size {
                Some(size) => Ok(TypeDescriptor::Fixed(size)),
                None => Err(SchemaError::InvalidSchema),
            },
            SchemaKind::Enum => match &schema.symbols {
                Some(symbols) => {
                    let copy = clone_names(symbols);
                    let d = TypeDescriptor::Enum(copy);
                    assert(d@->Enum_0 =~= Seq::new(symbols.len() as nat, |i: int| symbols[i]@));
                    Ok(d)
                },
                None => Err(SchemaError::InvalidSchema),
            },
            SchemaKind::Array | SchemaKind::Mapping => match &schema.children {
                Some(children) => {
                    if children.len() == 1 {
                        assert(decreases_to!(schema => schema.children->Some_0[0]));
                        match TypeDescriptor::build(&children[0], registry, custom_types, hooks) {
                            Ok(inner) => {
                                let ghost item = inner@;
                                let outer = if let SchemaKind::Array = schema.kind {
                                    TypeDescriptor::Array(Box::new(inner))
                                } else {
                                    TypeDescriptor::Mapping(Box::new(inner))
                                };
                                assert(outer@.handles_below(registry@.len())) by {
                                    assert(item.handles_below(registry@.len()));
                                }
                                assert(item.hook_free() ==> outer@.hook_free());
                                Ok(outer)
                            },
                            Err(e) => Err(e),
                        }
                    } else {
                        Err(SchemaError::InvalidSchema)
                    }
                },
                None => Err(SchemaError::InvalidSchema),
            },
            SchemaKind::Union => build_union(schema, registry, custom_types, hooks),
            SchemaKind::Record => AvromaticModel::build_model(schema, registry, custom_types, hooks),
            SchemaKind::Null => Ok(TypeDescriptor::Null),
            SchemaKind::Boolean => Ok(TypeDescriptor::Boolean),
            SchemaKind::Int => Ok(TypeDescriptor::Int),
            SchemaKind::Long => Ok(TypeDescriptor::Long),
            SchemaKind::Float => Ok(TypeDescriptor::Float),
            SchemaKind::Double => Ok(TypeDescriptor::Double),
            SchemaKind::Bytes => Ok(TypeDescriptor::Bytes),
            SchemaKind::String => Ok(TypeDescriptor::String),
            SchemaKind::Date => Ok(TypeDescriptor::Date),
            SchemaKind::TimestampMillis => Ok(TypeDescriptor::TimestampMillis),
            SchemaKind::TimestampMicros => Ok(TypeDescriptor::TimestampMicros),
        };
        assert(base matches Ok(d) ==> d@.handles_below(registry@.len()));
        assert(plain_build(old(registry)@, custom_types@) ==> (base matches Ok(d)
            ==> d@.hook_free()));
        match base {
            Err(e) => Err(e),
            Ok(d) => {
                if let Some(name) = &schema.fullname {
                    if let Some(custom) = custom_types.fetch(name.as_str()) {
                        let ghost inner = d@;
                        let ghost found = custom@;
                        let outer = TypeDescriptor::Custom(custom, Box::new(d));
                        proof {
                            assert(outer@->Custom_1 == inner);
                            assert(outer@->Custom_0 == found);
                            assert(outer@.handles_below(registry@.len()));
                            fetched_is_registered(custom_types@, name@, 0);
                            if plain_build(old(registry)@, custom_types@) {
                                assert(found.hookless());
                                assert(inner.hook_free());
                                assert(outer@.hook_free());
                                assert(outer@ == wrapped(schema, inner, custom_types@));
                            }
                        }
                        return Ok(outer);
                    }
                }
                Ok(d)
            },
        }
    }
}

/// A copy of a list of names.
pub fn clone_names(names: &Vec<String>) -> (r: Vec<String>)
    ensures
        r.len() == names.len(),
        forall|i: int| 0 <= i < names.len() ==> (#[trigger] r[i])@ == names[i]@,
{
    let mut out: Vec<String> = Vec::new();
    let mut i: usize = 0;
    while i < names.len()
        invariant
            i <= names.len(),
            out.len() == i,
            forall|j: int| 0 <= j < i ==> (#[trigger] out[j])@ == names[j]@,
        decreases names.len() - i,
    {
        out.push(names[i].clone());
        i += 1;
    }
    out
}

/// Whether a variant behind the first is null.
pub fn null_not_first(variants: &Vec<SchemaNode>) -> (r: bool)
    ensures
        r == null_misplaced(variants, 0),
{
    let mut i: usize = 0;
    while i < variants.len()
        invariant
            i <= variants.len(),
            null_misplaced(variants, 0) == null_misplaced(variants, i as nat),
        decreases variants.len() - i,
    {
        if i > 0 {
            if let SchemaKind::Null = variants[i].kind {
                return true;
            }
        }
        i += 1;
    }
    false
}

/// The base descriptor of a union schema: its variants built left to
/// right, after the check that a null variant comes first.
pub(crate) fn build_union<H: CustomTypeHooks>(
    schema: &SchemaNode,
    registry: &mut ModelRegistry,
    custom_types: &CustomTypeRegistry,
    hooks: &H,
) -> (r: Result<TypeDescriptor, SchemaError>)
    requires
        schema.kind == SchemaKind::Union,
    ensures
        registry_kept(old(registry), final(registry), built(r, final(registry)@).result),
        union_outline(schema, old(registry)@, built(r, final(registry)@).result, final(registry)@),
        plain_build(old(registry)@, custom_types@) ==> {
            &&& (match schema.children {
                Some(variants) => if null_misplaced(&variants, 0) {
                    r == Err::<TypeDescriptor, SchemaError>(SchemaError::NullNotFirst)
                        && final(registry)@ == old(registry)@
                } else {
                    let all = build_variants(
                        &variants,
                        0,
                        Seq::empty(),
                        old(registry)@,
                        old(registry).prefix_spec(),
                        custom_types@,
                    );
                    final(registry)@ == all.registry && match all.result {
                        Ok(descriptors) => r matches Ok(d) && d@ == DescriptorView::Union(
                            references(&variants),
                            descriptors,
                        ),
                        Err(e) => r == Err::<TypeDescriptor, SchemaError>(e),
                    }
                },
                None => r == Err::<TypeDescriptor, SchemaError>(SchemaError::InvalidSchema)
                    && final(registry)@ == old(registry)@,
            })
            &&& registry_hook_free(final(registry)@)
            &&& (r matches Ok(d) ==> d@.hook_free())
        },
    decreases schema, 1nat,
{
    let variants = match &schema.children {
        None => {
            return Err(SchemaError::InvalidSchema);
        },
        Some(variants) => variants,
    };
    if null_not_first(variants) {
        return Err(SchemaError::NullNotFirst);
    }
    let ghost plain = plain_build(old(registry)@, custom_types@);
    let ghost prefix = old(registry).prefix_spec();
    let ghost whole = build_variants(
        variants,
        0,
        Seq::empty(),
        old(registry)@,
        prefix,
        custom_types@,
    );
    let ghost mut acc: Seq<DescriptorView> = Seq::empty();
    let mut descriptors: Vec<TypeDescriptor> = Vec::new();
    let mut refs: Vec<(String, usize)> = Vec::new();
    let mut i: usize = 0;
    while i < variants.len()
        invariant
            schema.children == Some(*variants),
            !null_misplaced(variants, 0),
            old(registry).wf() ==> registry.wf(),
            registry.prefix == old(registry).prefix,
            prefix == old(registry).prefix_spec(),
            extends(old(registry)@, registry@),
            plain == plain_build(old(registry)@, custom_types@),
            plain ==> registry_hook_free(registry@),
            whole == build_variants(
                variants,
                0,
                Seq::empty(),
                old(registry)@,
                prefix,
                custom_types@,
            ),
            i <= variants.len(),
            acc.len() == i,
            descriptors.len() == i,
            refs.len() == i,
            forall|j: int| 0 <= j < i ==> acc[j] == (#[trigger] descriptors[j])@,
            forall|j: int| 0 <= j < i ==> (#[trigger] acc[j]).handles_below(registry@.len()),
            plain ==> forall|j: int| 0 <= j < i ==> (#[trigger] acc[j]).hook_free(),
            forall|j: int|
                0 <= j < i ==> (#[trigger] refs[j]).0@ == variants[j].reference_spec() && refs[j].1
                    == j,
            plain ==> whole == build_variants(
                variants,
                i as nat,
                acc,
                registry@,
                prefix,
                custom_types@,
            ),
        decreases variants.len() - i,
    {
        let ghost before = registry@;
        assert(decreases_to!(schema => schema.children->Some_0[i as int]));
        match TypeDescriptor::build(&variants[i], registry, custom_types, hooks) {
            Err(e) => {
                assert(plain ==> build_variants(
                    variants,
                    i as nat,
                    acc,
                    before,
                    prefix,
                    custom_types@,
                ) == (BuiltList { result: Err(e), registry: registry@ }));
                return Err(e);
            },
            Ok(d) => {
                proof {
                    assert forall|j: int| 0 <= j < i implies (#[trigger] acc[j]).handles_below(
                        registry@.len(),
                    ) by {
                        handles_below_rises(acc[j], before.len(), registry@.len());
                    }
                    acc = acc.push(d@);
                }
                refs.push((variants[i].reference(), i));
                descriptors.push(d);
            },
        }
        i += 1;
    }
    let d = TypeDescriptor::Union(refs, descriptors);
    proof {
        assert(d@->Union_1 =~= acc);
        assert(d@->Union_0 =~= references(variants));
    }
    Ok(d)
}

impl AttributeDescriptor {
    /// The attribute of a field: its type, and its default resolved under
    /// that type. A default that does not resolve is an error.
    pub fn build<H: CustomTypeHooks>(
        field_schema: &SchemaNode,
        default: &Option<crate::schema::AvroValue>,
        registry: &mut ModelRegistry,
        custom_types: &CustomTypeRegistry,
        hooks: &H,
    ) -> (r: Result<AttributeDescriptor, SchemaError>)
        ensures
            old(registry).wf() ==> final(registry).wf(),
            final(registry).prefix == old(registry).prefix,
            extends(old(registry)@, final(registry)@),
            r matches Ok(a) ==> a@.type_descriptor.handles_below(final(registry)@.len()),
            plain_build(old(registry)@, custom_types@) ==> {
                let typed = build_spec(
                    field_schema,
                    old(registry)@,
                    old(registry).prefix_spec(),
                    custom_types@,
                );
                &&& final(registry)@ == typed.registry
                &&& registry_hook_free(final(registry)@)
                &&& match typed.result {
                    Err(e) => r == Err::<AttributeDescriptor, SchemaError>(e),
                    Ok(d) => match default {
                        None => r matches Ok(a) && a@ == (AttributeView {
                            type_descriptor: d,
                            default: None,
                        }),
                        Some(literal) => match attribute_spec(
                            d,
                            literal,
                            typed.registry,
                            typed.registry.len(),
                        ) {
                            None => r == Err::<AttributeDescriptor, SchemaError>(
                                SchemaError::InvalidDefault,
                            ),
                            Some(value) => r matches Ok(a) && a@ == (AttributeView {
                                type_descriptor: d,
                                default: Some(value),
                            }),
                        },
                    },
                }
                &&& (r matches Ok(a) ==> a@.type_descriptor.hook_free())
            },
        decreases field_schema, 3nat,
    {
        let type_descriptor = match TypeDescriptor::build(
            field_schema,
            registry,
            custom_types,
            hooks,
        ) {
            Err(e) => {
                return Err(e);
            },
            Ok(d) => d,
        };
        let default = match default {
            None => None,
            Some(literal) => match type_descriptor.avro_to_attribute(literal, registry, hooks) {
                None => {
                    return Err(SchemaError::InvalidDefault);
                },
                Some(value) => Some(value),
            },
        };
        Ok(AttributeDescriptor { type_descriptor, default })
    }
}

impl RecordDescriptor {
    /// The descriptor of a record schema: the attribute of each field, in
    /// declared order. No name stands twice: a name that is declared
    /// twice keeps its first place and takes the later attribute.
    pub fn build<H: CustomTypeHooks>(
        schema: &SchemaNode,
        registry: &mut ModelRegistry,
        custom_types: &CustomTypeRegistry,
        hooks: &H,
    ) -> (r: Result<RecordDescriptor, SchemaError>)
        ensures
            old(registry).wf() ==> final(registry).wf(),
            final(registry).prefix == old(registry).prefix,
            extends(old(registry)@, final(registry)@),
            r matches Ok(record) ==> record_handles_below(record@, final(registry)@.len()),
            r matches Ok(record) ==> fields_unique(record@),
            schema.fields is None ==> r == Err::<RecordDescriptor, SchemaError>(
                SchemaError::InvalidSchema,
            ) && final(registry)@ == old(registry)@,
            plain_build(old(registry)@, custom_types@) ==> {
                &&& (match schema.fields {
                    None => r == Err::<RecordDescriptor, SchemaError>(SchemaError::InvalidSchema)
                        && final(registry)@ == old(registry)@,
                    Some(fields) => {
                        let all = build_fields(
                            &fields,
                            0,
                            Seq::empty(),
                            old(registry)@,
                            old(registry).prefix_spec(),
                            custom_types@,
                        );
                        final(registry)@ == all.registry && match all.result {
                            Ok(record) => r matches Ok(built) && built@ == record,
                            Err(e) => r == Err::<RecordDescriptor, SchemaError>(e),
                        }
                    },
                })
                &&& registry_hook_free(final(registry)@)
                &&& (r matches Ok(record) ==> record_hook_free(record@))
            },
        decreases schema, 0nat,
    {
        let fields = match &schema.fields {
            None => {
                return Err(SchemaError::InvalidSchema);
            },
            Some(fields) => fields,
        };
        let ghost plain = plain_build(old(registry)@, custom_types@);
        let ghost prefix = old(registry).prefix_spec();
        let ghost whole = build_fields(
            fields,
            0,
            Seq::empty(),
            old(registry)@,
            prefix,
            custom_types@,
        );
        let ghost mut acc: RecordView = Seq::empty();
        let mut attributes: Vec<(String, AttributeDescriptor)> = Vec::new();
        let mut i: usize = 0;
        while i < fields.len()
            invariant
                schema.fields == Some(*fields),
                old(registry).wf() ==> registry.wf(),
                registry.prefix == old(registry).prefix,
                prefix == old(registry).prefix_spec(),
                extends(old(registry)@, registry@),
                plain == plain_build(old(registry)@, custom_types@),
                plain ==> registry_hook_free(registry@),
                whole == build_fields(
                    fields,
                    0,
                    Seq::empty(),
                    old(registry)@,
                    prefix,
                    custom_types@,
                ),
                i <= fields.len(),
                acc.len() == attributes.len(),
                forall|j: int|
                    0 <= j < attributes.len() ==> acc[j] == (
                        (#[trigger] attributes[j]).0@,
                        attributes[j].1@,
                    ),
                fields_unique(acc),
                record_handles_below(acc, registry@.len()),
                plain ==> record_hook_free(acc),
                plain ==> whole == build_fields(
                    fields,
                    i as nat,
                    acc,
                    registry@,
                    prefix,
                    custom_types@,
                ),
            decreases fields.len() - i,
        {
            let ghost before = registry@;
            let field = &fields[i];
            assert(decreases_to!(schema => schema.fields->Some_0[i as int].schema));
            match AttributeDescriptor::build(
                &field.schema,
                &field.default,
                registry,
                custom_types,
                hooks,
            ) {
                Err(e) => {
                    assert(plain ==> build_fields(
                        fields,
                        i as nat,
                        acc,
                        before,
                        prefix,
                        custom_types@,
                    ) == (BuiltRecord { result: Err(e), registry: registry@ }));
                    return Err(e);
                },
                Ok(attribute) => {
                    let ghost earlier = acc;
                    proof {
                        assert forall|j: int| 0 <= j < acc.len() implies (
                        #[trigger] acc[j]).1.type_descriptor.handles_below(registry@.len()) by {
                            handles_below_rises(
                                acc[j].1.type_descriptor,
                                before.len(),
                                registry@.len(),
                            );
                        }
                        record_insert_keeps(acc, field.name@, attribute@, 0);
                    }
                    let updated = insert_field(
                        &mut attributes,
                        field.name.clone(),
                        attribute,
                        Ghost(acc),
                    );
                    proof {
                        acc = updated@;
                        assert forall|j: int| 0 <= j < acc.len() implies (
                        #[trigger] acc[j]).1.type_descriptor.handles_below(registry@.len()) by {
                            if j < earlier.len() && acc[j] == earlier[j] {
                                assert(earlier[j].1.type_descriptor.handles_below(registry@.len()));
                            }
                        }
                        if plain {
                            assert forall|j: int| 0 <= j < acc.len() implies (
                            #[trigger] acc[j]).1.type_descriptor.hook_free() by {
                                if j < earlier.len() && acc[j] == earlier[j] {
                                    assert(earlier[j].1.type_descriptor.hook_free());
                                }
                            }
                        }
                    }
                },
            }
            i += 1;
        }
        let record = RecordDescriptor { attributes };
        assert(record@ =~= acc);
        Ok(record)
    }
}

/// Puts `attribute` under `name`: in the place of a field with that
/// name, at the end where there is none.
pub(crate) fn insert_field(
    attributes: &mut Vec<(String, AttributeDescriptor)>,
    name: String,
    attribute: AttributeDescriptor,
    Ghost(views): Ghost<RecordView>,
) -> (r: Ghost<RecordView>)
    requires
        views.len() == old(attributes).len(),
        forall|j: int|
            0 <= j < old(attributes).len() ==> views[j] == (
                (#[trigger] old(attributes)[j]).0@,
                old(attributes)[j].1@,
            ),
    ensures
        r@ == record_insert(views, name@, attribute@, 0),
        r@.len() == final(attributes).len(),
        forall|j: int|
            0 <= j < final(attributes).len() ==> r@[j] == (
                (#[trigger] final(attributes)[j]).0@,
                final(attributes)[j].1@,
            ),
{
    let mut i: usize = 0;
    while i < attributes.len()
        invariant
            i <= attributes.len(),
            *attributes == *old(attributes),
            views.len() == attributes.len(),
            forall|j: int|
                0 <= j < attributes.len() ==> views[j] == (
                    (#[trigger] attributes[j]).0@,
                    attributes[j].1@,
                ),
            record_insert(views, name@, attribute@, 0) == record_insert(
                views,
                name@,
                attribute@,
                i as nat,
            ),
        decreases attributes.len() - i,
    {
        if attributes[i].0 == name {
            let ghost replaced = views.update(i as int, (name@, attribute@));
            attributes.set(i, (name, attribute));
            return Ghost(replaced);
        }
        i += 1;
    }
    let ghost pushed = views.push((name@, attribute@));
    attributes.push((name, attribute));
    Ghost(pushed)
}

/// The models that are built for nested records.
pub struct AvromaticModel;

impl AvromaticModel {
    /// The full name under which a model of the schema goes: only a
    /// record schema, and one that has a name, makes a model.
    pub fn from_schema(value_schema: &SchemaNode) -> (r: Result<String, SchemaError>)
        ensures
            match r {
                Ok(name) => value_schema.kind == SchemaKind::Record && (value_schema.fullname
                    matches Some(given) && name@ == given@),
                Err(e) => if value_schema.kind == SchemaKind::Record {
                    value_schema.fullname is None && e == SchemaError::InvalidSchema
                } else {
                    e == SchemaError::NotARecord
                },
            },
    {
        match value_schema.kind {
            SchemaKind::Record => match &value_schema.fullname {
                Some(name) => Ok(name.clone()),
                None => Err(SchemaError::InvalidSchema),
            },
            _ => Err(SchemaError::NotARecord),
        }
    }

    /// Resolves a named record to its model: the registered one, once
    /// the fingerprints have been compared, or a new one, built and
    /// registered. Gives the descriptor that holds the model's handle.
    ///
    /// Whatever the hooks do, a registered name gives its handle where
    /// the fingerprints agree and a mismatch where they differ, and the
    /// registry stays as it was.
    pub fn build_model<H: CustomTypeHooks>(
        schema: &SchemaNode,
        registry: &mut ModelRegistry,
        custom_types: &CustomTypeRegistry,
        hooks: &H,
    ) -> (r: Result<TypeDescriptor, SchemaError>)
        ensures
            registry_kept(old(registry), final(registry), built(r, final(registry)@).result),
            model_outline(
                schema,
                old(registry)@,
                old(registry).prefix_spec(),
                built(r, final(registry)@).result,
                final(registry)@,
            ),
            plain_build(old(registry)@, custom_types@) ==> {
                &&& match schema.fullname {
                    None => r == Err::<TypeDescriptor, SchemaError>(SchemaError::InvalidSchema)
                        && final(registry)@ == old(registry)@,
                    Some(name) => {
                        let key = registry_key_spec(old(registry).prefix_spec(), name@);
                        match lookup_spec(old(registry)@, key, 0) {
                            Some(handle) => final(registry)@ == old(registry)@ && built(
                                r,
                                final(registry)@,
                            ).result == validated(old(registry)@, handle, schema),
                            None => match schema.fields {
                                None => r == Err::<TypeDescriptor, SchemaError>(
                                    SchemaError::InvalidSchema,
                                ) && final(registry)@ == old(registry)@,
                                Some(fields) => {
                                    let all = build_fields(
                                        &fields,
                                        0,
                                        Seq::empty(),
                                        old(registry)@,
                                        old(registry).prefix_spec(),
                                        custom_types@,
                                    );
                                    match all.result {
                                        Err(e) => r == Err::<TypeDescriptor, SchemaError>(e)
                                            && final(registry)@ == all.registry,
                                        Ok(record) => r matches Ok(d) && d@
                                            == DescriptorView::Record(all.registry.len() as usize)
                                            && final(registry)@ == all.registry.push(
                                            ModelView {
                                                key,
                                                fingerprint: schema.fingerprint_spec(),
                                                record,
                                            },
                                        ),
                                    }
                                },
                            },
                        }
                    },
                }
                &&& registry_hook_free(final(registry)@)
            },
        decreases schema, 1nat,
    {
        let name = match &schema.fullname {
            None => {
                return Err(SchemaError::InvalidSchema);
            },
            Some(name) => name,
        };
        if let Some(handle) = registry.lookup(name.as_str()) {
            return Self::validate_fingerprints(schema, registry, handle);
        }
        let record = match RecordDescriptor::build(schema, registry, custom_types, hooks) {
            Err(e) => {
                return Err(e);
            },
            Ok(record) => record,
        };
        let ghost before = registry@;
        let handle = registry.register(name.as_str(), schema.fingerprint(), record);
        proof {
            if plain_build(old(registry)@, custom_types@) {
                assert forall|h: int| 0 <= h < registry@.len() implies record_hook_free(
                    (#[trigger] registry@[h]).record,
                ) by {
                    if h < before.len() {
                        assert(registry@[h] == before[h]);
                    }
                }
            }
        }
        Ok(TypeDescriptor::Record(handle))
    }

    /// Holds the fingerprint of a schema against that of the model
    /// registered under its name: the model's descriptor where they
    /// agree, a mismatch where they differ.
    pub fn validate_fingerprints(schema: &SchemaNode, registry: &ModelRegistry, handle: usize) -> (r:
        Result<TypeDescriptor, SchemaError>)
        requires
            handle < registry@.len(),
        ensures
            built(r, registry@).result == validated(registry@, handle, schema),
    {
        let fingerprint = schema.fingerprint();
        assert(registry@[handle as int] == registry.models[handle as int]@);
        if bytes_equal(registry.models[handle].fingerprint.as_slice(), fingerprint.as_slice()) {
            Ok(TypeDescriptor::Record(handle))
        } else {
            Err(SchemaError::FingerprintMismatch(handle))
        }
    }
}

/// The outcome for a schema whose name is registered under `handle`: the
/// record of that handle where the fingerprints agree, a mismatch where
/// they differ.
pub open spec fn validated(registry: RegistryView, handle: usize, schema: &SchemaNode) -> Result<
    DescriptorView,
    SchemaError,
> {
    if registry[handle as int].fingerprint == schema.fingerprint_spec() {
        Ok(DescriptorView::Record(handle))
    } else {
        Err(SchemaError::FingerprintMismatch(handle))
    }
}

} // verus!
