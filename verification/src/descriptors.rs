//! The type descriptor tree: the compiled, immutable form of a schema
//! that drives coercion and the binary codec.

use crate::values::{AvromaticValue, ValueView};
use vstd::prelude::*;

verus! {

/// A registered extension: the name of the schema it is registered for,
/// and which of its two hooks exist.
#[derive(Debug, PartialEq, Eq)]
pub struct CustomTypeConfiguration {
    pub name: String,
    pub to_avro: bool,
    pub from_avro: bool,
}

/// One node of the descriptor tree.
///
/// A record is held by the handle of its model in the registry, never
/// inline. In a union the second list holds the variants in declared
/// order; the first maps each variant's reference name to its index.
#[derive(Debug, PartialEq, Eq)]
pub enum TypeDescriptor {
    Boolean,
    Enum(Vec<String>),
    Fixed(usize),
    Float,
    Double,
    Int,
    Long,
    Null,
    String,
    Bytes,
    Date,
    TimestampMicros,
    TimestampMillis,
    Array(Box<TypeDescriptor>),
    Mapping(Box<TypeDescriptor>),
    Record(usize),
    Union(Vec<(String, usize)>, Vec<TypeDescriptor>),
    Custom(CustomTypeConfiguration, Box<TypeDescriptor>),
}

/// A field's type and its default, if the schema declares one.
#[derive(Debug, PartialEq, Eq)]
pub struct AttributeDescriptor {
    pub type_descriptor: TypeDescriptor,
    pub default: Option<AvromaticValue>,
}

/// The fields of a record, in declared order.
#[derive(Debug, PartialEq, Eq)]
pub struct RecordDescriptor {
    pub attributes: Vec<(String, AttributeDescriptor)>,
}

/// The model of a `CustomTypeConfiguration`.
pub struct CustomView {
    pub name: Seq<char>,
    pub to_avro: bool,
    pub from_avro: bool,
}

impl CustomView {
    /// Whether the extension has neither hook: it then hands every value
    /// on as it is.
    pub open spec fn hookless(self) -> bool {
        !self.to_avro && !self.from_avro
    }
}

/// The model of a `TypeDescriptor`.
pub enum DescriptorView {
    Boolean,
    Enum(Seq<Seq<char>>),
    Fixed(usize),
    Float,
    Double,
    Int,
    Long,
    Null,
    String,
    Bytes,
    Date,
    TimestampMicros,
    TimestampMillis,
    Array(Box<DescriptorView>),
    Mapping(Box<DescriptorView>),
    Record(usize),
    Union(Seq<(Seq<char>, usize)>, Seq<DescriptorView>),
    Custom(CustomView, Box<DescriptorView>),
}

/// The model of an `AttributeDescriptor`.
pub struct AttributeView {
    pub type_descriptor: DescriptorView,
    pub default: Option<ValueView>,
}

/// The model of a `RecordDescriptor`: names and attributes in order.
pub type RecordView = Seq<(Seq<char>, AttributeView)>;

impl View for CustomTypeConfiguration {
    type V = CustomView;

    open spec fn view(&self) -> CustomView {
        CustomView { name: self.name@, to_avro: self.to_avro, from_avro: self.from_avro }
    }
}

impl TypeDescriptor {
    /// The mathematical model of the descriptor.
    pub open spec fn model(&self) -> DescriptorView
        decreases self,
    {
        match self {
            TypeDescriptor::Boolean => DescriptorView::Boolean,
            TypeDescriptor::Enum(symbols) => DescriptorView::Enum(
                Seq::new(symbols.len() as nat, |i: int| symbols[i]@),
            ),
            TypeDescriptor::Fixed(size) => DescriptorView::Fixed(*size),
            TypeDescriptor::Float => DescriptorView::Float,
            TypeDescriptor::Double => DescriptorView::Double,
            TypeDescriptor::Int => DescriptorView::Int,
            TypeDescriptor::Long => DescriptorView::Long,
            TypeDescriptor::Null => DescriptorView::Null,
            TypeDescriptor::String => DescriptorView::String,
            TypeDescriptor::Bytes => DescriptorView::Bytes,
            TypeDescriptor::Date => DescriptorView::Date,
            TypeDescriptor::TimestampMicros => DescriptorView::TimestampMicros,
            TypeDescriptor::TimestampMillis => DescriptorView::TimestampMillis,
            TypeDescriptor::Array(inner) => DescriptorView::Array(Box::new(inner.model())),
            TypeDescriptor::Mapping(inner) => DescriptorView::Mapping(Box::new(inner.model())),
            TypeDescriptor::Record(handle) => DescriptorView::Record(*handle),
            TypeDescriptor::Union(refs, variants) => DescriptorView::Union(
                Seq::new(refs.len() as nat, |i: int| (refs[i].0@, refs[i].1)),
                Seq::new(
                    variants.len() as nat,
                    |i: int|
                        if 0 <= i < variants.len() {
                            variants[i].model()
                        } else {
                            DescriptorView::Null
                        },
                ),
            ),
            TypeDescriptor::Custom(custom, inner) => DescriptorView::Custom(
                custom@,
                Box::new(inner.model()),
            ),
        }
    }
}

impl TypeDescriptor {
    /// Whether the descriptor has no descriptor inside and names no model
    /// or extension.
    pub open spec fn is_scalar(&self) -> bool {
        !(self is Array || self is Mapping || self is Union || self is Record || self is Custom)
    }
}

impl View for TypeDescriptor {
    type V = DescriptorView;

    open spec fn view(&self) -> DescriptorView {
        self.model()
    }
}

impl View for AttributeDescriptor {
    type V = AttributeView;

    open spec fn view(&self) -> AttributeView {
        AttributeView {
            type_descriptor: self.type_descriptor@,
            default: match self.default {
                Some(value) => Some(value@),
                None => None,
            },
        }
    }
}

impl View for RecordDescriptor {
    type V = RecordView;

    open spec fn view(&self) -> RecordView {
        Seq::new(
            self.attributes.len() as nat,
            |i: int| (self.attributes[i].0@, self.attributes[i].1@),
        )
    }
}

/// Whether two lists of names hold the same names in the same order.
pub fn same_names(a: &Vec<String>, b: &Vec<String>) -> (r: bool)
    ensures
        r == (Seq::new(a.len() as nat, |i: int| a[i]@) == Seq::new(b.len() as nat, |i: int| b[i]@)),
{
    let ghost left = Seq::new(a.len() as nat, |i: int| a[i]@);
    let ghost right = Seq::new(b.len() as nat, |i: int| b[i]@);
    if a.len() != b.len() {
        assert(left.len() != right.len());
        return false;
    }
    let mut i: usize = 0;
    while i < a.len()
        invariant
            i <= a.len(),
            a.len() == b.len(),
            left == Seq::new(a.len() as nat, |i: int| a[i]@),
            right == Seq::new(b.len() as nat, |i: int| b[i]@),
            forall|j: int| 0 <= j < i ==> left[j] == right[j],
        decreases a.len() - i,
    {
        if !(a[i] == b[i]) {
            assert(left[i as int] != right[i as int]);
            return false;
        }
        i += 1;
    }
    assert(left =~= right);
    true
}

/// Whether two reference maps hold the same entries in the same order.
pub fn same_references(a: &Vec<(String, usize)>, b: &Vec<(String, usize)>) -> (r: bool)
    ensures
        r == (Seq::new(a.len() as nat, |i: int| (a[i].0@, a[i].1)) == Seq::new(
            b.len() as nat,
            |i: int| (b[i].0@, b[i].1),
        )),
{
    let ghost left = Seq::new(a.len() as nat, |i: int| (a[i].0@, a[i].1));
    let ghost right = Seq::new(b.len() as nat, |i: int| (b[i].0@, b[i].1));
    if a.len() != b.len() {
        assert(left.len() != right.len());
        return false;
    }
    let mut i: usize = 0;
    while i < a.len()
        invariant
            i <= a.len(),
            a.len() == b.len(),
            left == Seq::new(a.len() as nat, |i: int| (a[i].0@, a[i].1)),
            right == Seq::new(b.len() as nat, |i: int| (b[i].0@, b[i].1)),
            forall|j: int| 0 <= j < i ==> left[j] == right[j],
        decreases a.len() - i,
    {
        if !(a[i].0 == b[i].0) || a[i].1 != b[i].1 {
            assert(left[i as int] != right[i as int]);
            return false;
        }
        i += 1;
    }
    assert(left =~= right);
    true
}

impl CustomTypeConfiguration {
    /// Whether two configurations are the same.
    pub fn same(&self, other: &CustomTypeConfiguration) -> (r: bool)
        ensures
            r == (self@ == other@),
    {
        self.name == other.name && self.to_avro == other.to_avro && self.from_avro
            == other.from_avro
    }
}

impl TypeDescriptor {
    /// Whether two descriptors describe the same type.
    pub fn same(&self, other: &TypeDescriptor) -> (r: bool)
        ensures
            r == (self@ == other@),
        decreases self,
    {
        match (self, other) {
            (TypeDescriptor::Boolean, TypeDescriptor::Boolean) => true,
            (TypeDescriptor::Float, TypeDescriptor::Float) => true,
            (TypeDescriptor::Double, TypeDescriptor::Double) => true,
            (TypeDescriptor::Int, TypeDescriptor::Int) => true,
            (TypeDescriptor::Long, TypeDescriptor::Long) => true,
            (TypeDescriptor::Null, TypeDescriptor::Null) => true,
            (TypeDescriptor::String, TypeDescriptor::String) => true,
            (TypeDescriptor::Bytes, TypeDescriptor::Bytes) => true,
            (TypeDescriptor::Date, TypeDescriptor::Date) => true,
            (TypeDescriptor::TimestampMicros, TypeDescriptor::TimestampMicros) => true,
            (TypeDescriptor::TimestampMillis, TypeDescriptor::TimestampMillis) => true,
            (TypeDescriptor::Enum(a), TypeDescriptor::Enum(b)) => {
                assert(self@->Enum_0 =~= Seq::new(a.len() as nat, |i: int| a[i]@));
                assert(other@->Enum_0 =~= Seq::new(b.len() as nat, |i: int| b[i]@));
                same_names(a, b)
            },
            (TypeDescriptor::Fixed(a), TypeDescriptor::Fixed(b)) => *a == *b,
            (TypeDescriptor::Array(a), TypeDescriptor::Array(b)) => a.same(b),
            (TypeDescriptor::Mapping(a), TypeDescriptor::Mapping(b)) => a.same(b),
            (TypeDescriptor::Record(a), TypeDescriptor::Record(b)) => *a == *b,
            (TypeDescriptor::Custom(ca, a), TypeDescriptor::Custom(cb, b)) => ca.same(cb) && a.same(b),
            (TypeDescriptor::Union(ra, va), TypeDescriptor::Union(rb, vb)) => {
                assert(self@->Union_0 =~= Seq::new(ra.len() as nat, |i: int| (ra[i].0@, ra[i].1)));
                assert(other@->Union_0 =~= Seq::new(rb.len() as nat, |i: int| (rb[i].0@, rb[i].1)));
                assert(self@->Union_1.len() == va.len());
                assert(other@->Union_1.len() == vb.len());
                if !same_references(ra, rb) || va.len() != vb.len() {
                    return false;
                }
                let mut i: usize = 0;
                while i < va.len()
                    invariant
                        i <= va.len(),
                        va.len() == vb.len(),
                        self is Union,
                        other is Union,
                        self->Union_1 == *va,
                        other->Union_1 == *vb,
                        self@->Union_0 == other@->Union_0,
                        self@->Union_1.len() == va.len(),
                        other@->Union_1.len() == vb.len(),
                        forall|j: int| 0 <= j < va.len() ==> self@->Union_1[j] == (#[trigger] va[j])@,
                        forall|j: int| 0 <= j < vb.len() ==> other@->Union_1[j] == (#[trigger] vb[j])@,
                        forall|j: int| 0 <= j < i ==> self@->Union_1[j] == other@->Union_1[j],
                    decreases va.len() - i,
                {
                    assert(decreases_to!(self->Union_1 => va[i as int]));
                    if !va[i].same(&vb[i]) {
                        assert(self@->Union_1[i as int] != other@->Union_1[i as int]);
                        return false;
                    }
                    i += 1;
                }
                assert(self@->Union_1 =~= other@->Union_1);
                true
            },
            _ => false,
        }
    }
}

/// A record model as the registry holds it.
#[derive(Debug, PartialEq, Eq)]
pub struct RegisteredModel {
    /// The key under which the model is registered.
    pub key: Vec<u8>,
    /// The fingerprint of the schema it was registered with.
    pub fingerprint: Vec<u8>,
    pub descriptor: RecordDescriptor,
}

/// The model of a `RegisteredModel`.
pub struct ModelView {
    pub key: Seq<u8>,
    pub fingerprint: Seq<u8>,
    pub record: RecordView,
}

impl View for RegisteredModel {
    type V = ModelView;

    open spec fn view(&self) -> ModelView {
        ModelView { key: self.key@, fingerprint: self.fingerprint@, record: self.descriptor@ }
    }
}

/// The models of a registry, by handle.
pub type RegistryView = Seq<ModelView>;

impl DescriptorView {
    /// Whether every record handle in the tree is below `level`.
    pub open spec fn handles_below(self, level: nat) -> bool
        decreases self,
    {
        match self {
            DescriptorView::Array(inner) => inner.handles_below(level),
            DescriptorView::Mapping(inner) => inner.handles_below(level),
            DescriptorView::Record(handle) => handle < level,
            DescriptorView::Union(_, variants) => forall|i: int|
                0 <= i < variants.len() ==> (#[trigger] variants[i]).handles_below(level),
            DescriptorView::Custom(_, inner) => inner.handles_below(level),
            _ => true,
        }
    }

    /// Whether no custom type in the tree has a hook.
    pub open spec fn hook_free(self) -> bool
        decreases self,
    {
        match self {
            DescriptorView::Array(inner) => inner.hook_free(),
            DescriptorView::Mapping(inner) => inner.hook_free(),
            DescriptorView::Union(_, variants) => forall|i: int|
                0 <= i < variants.len() ==> (#[trigger] variants[i]).hook_free(),
            DescriptorView::Custom(custom, inner) => custom.hookless() && inner.hook_free(),
            _ => true,
        }
    }

    /// Whether no record stands anywhere in the tree, so that nothing in
    /// it is looked up in a registry.
    pub open spec fn record_free(self) -> bool
        decreases self,
    {
        match self {
            DescriptorView::Array(inner) => inner.record_free(),
            DescriptorView::Mapping(inner) => inner.record_free(),
            DescriptorView::Union(_, variants) => forall|i: int|
                0 <= i < variants.len() ==> (#[trigger] variants[i]).record_free(),
            DescriptorView::Custom(_, inner) => inner.record_free(),
            DescriptorView::Record(_) => false,
            _ => true,
        }
    }

    /// Whether no hook can be asked on the way through the tree under a
    /// registry: the tree holds no custom type with a hook, and either it
    /// reaches no record or the registry holds no such type either.
    pub open spec fn settled(self, registry: RegistryView) -> bool {
        self.hook_free() && (self.record_free() || registry_hook_free(registry))
    }
}

/// Whether every record handle in the fields of `record` is below `level`.
pub open spec fn record_handles_below(record: RecordView, level: nat) -> bool {
    forall|i: int|
        0 <= i < record.len() ==> (#[trigger] record[i]).1.type_descriptor.handles_below(level)
}

/// Whether no custom type in the fields of `record` has a hook.
pub open spec fn record_hook_free(record: RecordView) -> bool {
    forall|i: int| 0 <= i < record.len() ==> (#[trigger] record[i]).1.type_descriptor.hook_free()
}

/// A registry is well formed when each model refers only to models
/// registered before it.
pub open spec fn registry_wf(registry: RegistryView) -> bool {
    forall|h: int|
        0 <= h < registry.len() ==> record_handles_below((#[trigger] registry[h]).record, h as nat)
}

/// Whether no custom type in a model of the registry has a hook.
pub open spec fn registry_hook_free(registry: RegistryView) -> bool {
    forall|h: int| 0 <= h < registry.len() ==> record_hook_free((#[trigger] registry[h]).record)
}

/// Whether every field of a record is settled under a registry.
pub open spec fn record_settled(record: RecordView, registry: RegistryView) -> bool {
    forall|i: int|
        0 <= i < record.len() ==> (#[trigger] record[i]).1.type_descriptor.settled(registry)
}

} // verus!
