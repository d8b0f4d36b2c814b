//! The value models: what a host hands in (`HostValue`) and the
//! schema-agnostic intermediate form that the coercion engine produces and
//! the binary codec reads and writes (`AvromaticValue`).
//!
//! Floating-point payloads are carried as their IEEE-754 bit patterns;
//! the library moves them and never computes with them.

use vstd::prelude::*;

verus! {

/// A host number, in the forms the host supplies.
///
/// `as_integer` is the number itself for an integer and its truncation
/// for a float; `as_double` and `as_single` are its IEEE-754 bits in
/// double and single precision.
#[derive(Clone, Copy, Debug, PartialEq, Eq)]
pub struct HostNumber {
    pub integer: bool,
    pub as_integer: Option<i64>,
    pub as_double: Option<u64>,
    pub as_single: Option<u32>,
}

/// An instance of a record model on the host side: the models it
/// descends from, by their registry handles, and its attribute storage.
#[derive(Debug, PartialEq, Eq)]
pub struct ModelInstance {
    pub ancestors: Vec<usize>,
    pub storage: ModelStorage,
}

/// The attributes of one record instance, by field name.
#[derive(Debug, PartialEq, Eq)]
pub struct ModelStorage {
    pub attributes: Vec<(String, AvromaticValue)>,
}

/// A loosely typed value as the host presents it.
#[derive(Debug, PartialEq, Eq)]
pub enum HostValue {
    Nil,
    Boolean(bool),
    Number(HostNumber),
    String(Vec<u8>),
    Symbol(Vec<u8>),
    /// A calendar date, as days since the epoch.
    Date(i64),
    /// A date with time, as seconds since the epoch.
    DateTime(i64),
    /// A point in time: seconds since the epoch and microseconds within
    /// the second.
    Time(i64, i64),
    Array(Vec<HostValue>),
    Mapping(Vec<(HostValue, HostValue)>),
    Model(ModelInstance),
    /// Any other host object, known by its identity alone.
    Object(u64),
}

/// The intermediate value model.
#[derive(Debug, PartialEq, Eq)]
pub enum AvromaticValue {
    Null,
    True,
    False,
    String(Vec<u8>),
    Long(i64),
    /// Single-precision bits.
    Float(u32),
    /// Double-precision bits.
    Double(u64),
    Array(Vec<AvromaticValue>),
    Mapping(Vec<(Vec<u8>, AvromaticValue)>),
    Union(usize, Box<AvromaticValue>),
    Record(ModelStorage),
    Custom(Box<HostValue>),
}

/// The mathematical model of a `HostValue`.
pub enum HostView {
    Nil,
    Boolean(bool),
    Number(HostNumber),
    String(Seq<u8>),
    Symbol(Seq<u8>),
    Date(i64),
    DateTime(i64),
    Time(i64, i64),
    Array(Seq<HostView>),
    Mapping(Seq<(HostView, HostView)>),
    Model(Seq<usize>, Seq<(Seq<char>, ValueView)>),
    Object(u64),
}

/// The mathematical model of an `AvromaticValue`.
pub enum ValueView {
    Null,
    True,
    False,
    String(Seq<u8>),
    Long(i64),
    Float(u32),
    Double(u64),
    Array(Seq<ValueView>),
    Mapping(Seq<(Seq<u8>, ValueView)>),
    Union(nat, Box<ValueView>),
    Record(Seq<(Seq<char>, ValueView)>),
    Custom(Box<HostView>),
}

/// Whether no two entries of a map share a key.
pub open spec fn keys_unique(entries: Seq<(Seq<u8>, ValueView)>) -> bool {
    forall|i: int, j: int|
        0 <= i < j < entries.len() ==> (#[trigger] entries[i]).0 != (#[trigger] entries[j]).0
}

/// Whether no two attributes of a storage share a name.
pub open spec fn names_unique(storage: Seq<(Seq<char>, ValueView)>) -> bool {
    forall|i: int, j: int|
        0 <= i < j < storage.len() ==> (#[trigger] storage[i]).0 != (#[trigger] storage[j]).0
}

impl ValueView {
    /// The invariant of intermediate values: a map holds no key twice, a
    /// record no name twice, and so for every value inside. The host
    /// value that a custom value wraps is as the host gave it.
    pub open spec fn well_formed(self) -> bool
        decreases self,
    {
        match self {
            ValueView::Array(items) => forall|i: int|
                0 <= i < items.len() ==> (#[trigger] items[i]).well_formed(),
            ValueView::Mapping(entries) => keys_unique(entries) && forall|i: int|
                0 <= i < entries.len() ==> (#[trigger] entries[i]).1.well_formed(),
            ValueView::Union(_, inner) => inner.well_formed(),
            ValueView::Record(storage) => names_unique(storage) && forall|i: int|
                0 <= i < storage.len() ==> (#[trigger] storage[i]).1.well_formed(),
            _ => true,
        }
    }
}

impl AvromaticValue {
    /// The invariant of the value: no map in it holds a key twice, no
    /// record a name twice.
    pub open spec fn wf(&self) -> bool {
        self@.well_formed()
    }
}

impl ModelStorage {
    /// The invariant of the storage: it holds no name twice, and every
    /// value in it is well formed.
    pub open spec fn wf(&self) -> bool {
        ValueView::Record(self@).well_formed()
    }
}

impl AvromaticValue {
    /// The mathematical model of the value.
    pub open spec fn model(&self) -> ValueView
        decreases self,
    {
        match self {
            AvromaticValue::Null => ValueView::Null,
            AvromaticValue::True => ValueView::True,
            AvromaticValue::False => ValueView::False,
            AvromaticValue::String(bytes) => ValueView::String(bytes@),
            AvromaticValue::Long(n) => ValueView::Long(*n),
            AvromaticValue::Float(bits) => ValueView::Float(*bits),
            AvromaticValue::Double(bits) => ValueView::Double(*bits),
            AvromaticValue::Array(items) => ValueView::Array(
                Seq::new(
                    items.len() as nat,
                    |i: int|
                        if 0 <= i < items.len() {
                            items[i].model()
                        } else {
                            ValueView::Null
                        },
                ),
            ),
            AvromaticValue::Mapping(entries) => ValueView::Mapping(
                Seq::new(
                    entries.len() as nat,
                    |i: int|
                        if 0 <= i < entries.len() {
                            (entries[i].0@, entries[i].1.model())
                        } else {
                            (Seq::empty(), ValueView::Null)
                        },
                ),
            ),
            AvromaticValue::Union(index, inner) => ValueView::Union(
                *index as nat,
                Box::new(inner.model()),
            ),
            AvromaticValue::Record(storage) => ValueView::Record(storage.model()),
            AvromaticValue::Custom(wrapped) => ValueView::Custom(Box::new(wrapped.model())),
        }
    }
}

impl ModelStorage {
    /// The attributes as names and models of values, in order.
    pub open spec fn model(&self) -> Seq<(Seq<char>, ValueView)>
        decreases self,
    {
        Seq::new(
            self.attributes.len() as nat,
            |i: int|
                if 0 <= i < self.attributes.len() {
                    (self.attributes[i].0@, self.attributes[i].1.model())
                } else {
                    (Seq::empty(), ValueView::Null)
                },
        )
    }
}

impl HostValue {
    /// The mathematical model of the host value.
    pub open spec fn model(&self) -> HostView
        decreases self,
    {
        match self {
            HostValue::Nil => HostView::Nil,
            HostValue::Boolean(b) => HostView::Boolean(*b),
            HostValue::Number(n) => HostView::Number(*n),
            HostValue::String(bytes) => HostView::String(bytes@),
            HostValue::Symbol(bytes) => HostView::Symbol(bytes@),
            HostValue::Date(days) => HostView::Date(*days),
            HostValue::DateTime(seconds) => HostView::DateTime(*seconds),
            HostValue::Time(seconds, micros) => HostView::Time(*seconds, *micros),
            HostValue::Array(items) => HostView::Array(
                Seq::new(
                    items.len() as nat,
                    |i: int|
                        if 0 <= i < items.len() {
                            items[i].model()
                        } else {
                            HostView::Nil
                        },
                ),
            ),
            HostValue::Mapping(entries) => HostView::Mapping(
                Seq::new(
                    entries.len() as nat,
                    |i: int|
                        if 0 <= i < entries.len() {
                            (entries[i].0.model(), entries[i].1.model())
                        } else {
                            (HostView::Nil, HostView::Nil)
                        },
                ),
            ),
            HostValue::Model(instance) => HostView::Model(
                instance.ancestors@,
                instance.storage.model(),
            ),
            HostValue::Object(id) => HostView::Object(*id),
        }
    }
}

impl View for AvromaticValue {
    type V = ValueView;

    open spec fn view(&self) -> ValueView {
        self.model()
    }
}

impl View for ModelStorage {
    type V = Seq<(Seq<char>, ValueView)>;

    open spec fn view(&self) -> Seq<(Seq<char>, ValueView)> {
        self.model()
    }
}

impl View for HostValue {
    type V = HostView;

    open spec fn view(&self) -> HostView {
        self.model()
    }
}

/// A copy of a byte string.
pub fn clone_bytes(bytes: &Vec<u8>) -> (r: Vec<u8>)
    ensures
        r@ == bytes@,
{
    let mut out: Vec<u8> = Vec::new();
    let mut i: usize = 0;
    while i < bytes.len()
        invariant
            i <= bytes.len(),
            out@ == bytes@.subrange(0, i as int),
        decreases bytes.len() - i,
    {
        out.push(bytes[i]);
        assert(bytes@.subrange(0, i as int).push(bytes@[i as int]) =~= bytes@.subrange(
            0,
            i + 1,
        ));
        i += 1;
    }
    assert(bytes@.subrange(0, bytes.len() as int) =~= bytes@);
    out
}

/// A copy of the bytes of a slice.
pub fn slice_to_vec(bytes: &[u8], from: usize, to: usize) -> (r: Vec<u8>)
    requires
        from <= to <= bytes.len(),
    ensures
        r@ == bytes@.subrange(from as int, to as int),
{
    let mut out: Vec<u8> = Vec::new();
    let mut i: usize = from;
    while i < to
        invariant
            from <= i <= to <= bytes.len(),
            out@ == bytes@.subrange(from as int, i as int),
        decreases to - i,
    {
        out.push(bytes[i]);
        assert(bytes@.subrange(from as int, i as int).push(bytes@[i as int]) =~= bytes@.subrange(
            from as int,
            i + 1,
        ));
        i += 1;
    }
    out
}

/// Whether two byte strings hold the same bytes.
pub fn bytes_equal(a: &[u8], b: &[u8]) -> (r: bool)
    ensures
        r == (a@ == b@),
{
    if a.len() != b.len() {
        return false;
    }
    let mut i: usize = 0;
    while i < a.len()
        invariant
            i <= a.len(),
            a.len() == b.len(),
            forall|j: int| 0 <= j < i ==> a@[j] == b@[j],
        decreases a.len() - i,
    {
        if a[i] != b[i] {
            return false;
        }
        i += 1;
    }
    assert(a@ =~= b@);
    true
}

/// Whether two strings are the same text.
pub fn str_equal(a: &str, b: &str) -> (r: bool)
    ensures
        r == (a@ == b@),
{
    proof {
        vstd::utf8::encode_utf8_decode_utf8(a@);
        vstd::utf8::encode_utf8_decode_utf8(b@);
    }
    bytes_equal(a.as_bytes(), b.as_bytes())
}

impl AvromaticValue {
    /// A deep copy.
    pub fn duplicate(&self) -> (r: AvromaticValue)
        ensures
            r@ == self@,
        decreases self,
    {
        match self {
            AvromaticValue::Null => AvromaticValue::Null,
            AvromaticValue::True => AvromaticValue::True,
            AvromaticValue::False => AvromaticValue::False,
            AvromaticValue::String(bytes) => AvromaticValue::String(clone_bytes(bytes)),
            AvromaticValue::Long(n) => AvromaticValue::Long(*n),
            AvromaticValue::Float(bits) => AvromaticValue::Float(*bits),
            AvromaticValue::Double(bits) => AvromaticValue::Double(*bits),
            AvromaticValue::Array(items) => {
                let mut out: Vec<AvromaticValue> = Vec::new();
                let mut i: usize = 0;
                while i < items.len()
                    invariant
                        i <= items.len(),
                        self is Array,
                        self->Array_0 == *items,
                        out.len() == i,
                        forall|j: int| 0 <= j < i ==> out[j]@ == items[j]@,
                    decreases items.len() - i,
                {
                    assert(decreases_to!(self->Array_0 => items[i as int]));
                    out.push(items[i].duplicate());
                    i += 1;
                }
                let r = AvromaticValue::Array(out);
                assert(r@->Array_0 =~= self@->Array_0);
                r
            },
            AvromaticValue::Mapping(entries) => {
                let mut out: Vec<(Vec<u8>, AvromaticValue)> = Vec::new();
                let mut i: usize = 0;
                while i < entries.len()
                    invariant
                        i <= entries.len(),
                        self is Mapping,
                        self->Mapping_0 == *entries,
                        out.len() == i,
                        forall|j: int|
                            0 <= j < i ==> out[j].0@ == entries[j].0@ && out[j].1@ == entries[j].1@,
                    decreases entries.len() - i,
                {
                    assert(decreases_to!(self->Mapping_0 => entries[i as int]));
                    let key = clone_bytes(&entries[i].0);
                    out.push((key, entries[i].1.duplicate()));
                    i += 1;
                }
                let r = AvromaticValue::Mapping(out);
                assert(r@->Mapping_0 =~= self@->Mapping_0);
                r
            },
            AvromaticValue::Union(index, inner) => AvromaticValue::Union(
                *index,
                Box::new(inner.duplicate()),
            ),
            AvromaticValue::Record(storage) => AvromaticValue::Record(storage.duplicate()),
            AvromaticValue::Custom(wrapped) => AvromaticValue::Custom(
                Box::new(wrapped.duplicate()),
            ),
        }
    }
}

impl ModelStorage {
    /// A storage without attributes.
    pub fn new() -> (r: ModelStorage)
        ensures
            r@ == Seq::<(Seq<char>, ValueView)>::empty(),
            r.wf(),
    {
        let r = ModelStorage { attributes: Vec::new() };
        assert(r@ =~= Seq::<(Seq<char>, ValueView)>::empty());
        r
    }

    /// A deep copy.
    pub fn duplicate(&self) -> (r: ModelStorage)
        ensures
            r@ == self@,
        decreases self,
    {
        let mut out: Vec<(String, AvromaticValue)> = Vec::new();
        let mut i: usize = 0;
        while i < self.attributes.len()
            invariant
                i <= self.attributes.len(),
                out.len() == i,
                forall|j: int|
                    0 <= j < i ==> out[j].0@ == self.attributes[j].0@ && out[j].1@
                        == self.attributes[j].1@,
            decreases self.attributes.len() - i,
        {
            assert(decreases_to!(self.attributes => self.attributes[i as int]));
            let name = self.attributes[i].0.clone();
            out.push((name, self.attributes[i].1.duplicate()));
            i += 1;
        }
        let r = ModelStorage { attributes: out };
        assert(r@ =~= self@);
        r
    }
}

impl HostValue {
    /// A deep copy.
    pub fn duplicate(&self) -> (r: HostValue)
        ensures
            r@ == self@,
        decreases self,
    {
        match self {
            HostValue::Nil => HostValue::Nil,
            HostValue::Boolean(b) => HostValue::Boolean(*b),
            HostValue::Number(n) => HostValue::Number(*n),
            HostValue::String(bytes) => HostValue::String(clone_bytes(bytes)),
            HostValue::Symbol(bytes) => HostValue::Symbol(clone_bytes(bytes)),
            HostValue::Date(days) => HostValue::Date(*days),
            HostValue::DateTime(seconds) => HostValue::DateTime(*seconds),
            HostValue::Time(seconds, micros) => HostValue::Time(*seconds, *micros),
            HostValue::Array(items) => {
                let mut out: Vec<HostValue> = Vec::new();
                let mut i: usize = 0;
                while i < items.len()
                    invariant
                        i <= items.len(),
                        self is Array,
                        self->Array_0 == *items,
                        out.len() == i,
                        forall|j: int| 0 <= j < i ==> out[j]@ == items[j]@,
                    decreases items.len() - i,
                {
                    assert(decreases_to!(self->Array_0 => items[i as int]));
                    out.push(items[i].duplicate());
                    i += 1;
                }
                let r = HostValue::Array(out);
                assert(r@->Array_0 =~= self@->Array_0);
                r
            },
            HostValue::Mapping(entries) => {
                let mut out: Vec<(HostValue, HostValue)> = Vec::new();
                let mut i: usize = 0;
                while i < entries.len()
                    invariant
                        i <= entries.len(),
                        self is Mapping,
                        self->Mapping_0 == *entries,
                        out.len() == i,
                        forall|j: int|
                            0 <= j < i ==> out[j].0@ == entries[j].0@ && out[j].1@ == entries[j].1@,
                    decreases entries.len() - i,
                {
                    assert(decreases_to!(self->Mapping_0 => entries[i as int]));
                    let key = entries[i].0.duplicate();
                    out.push((key, entries[i].1.duplicate()));
                    i += 1;
                }
                let r = HostValue::Mapping(out);
                assert(r@->Mapping_0 =~= self@->Mapping_0);
                r
            },
            HostValue::Model(instance) => {
                let ancestors = instance.ancestors.clone();
                HostValue::Model(
                    ModelInstance { ancestors, storage: instance.storage.duplicate() },
                )
            },
            HostValue::Object(id) => HostValue::Object(*id),
        }
    }
}

} // verus!
