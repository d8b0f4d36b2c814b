//! From intermediate values back to host values, as a type descriptor
//! directs: a long under a date descriptor is a date, under a timestamp
//! descriptor a time, elsewhere an integer.

use crate::descriptors::{DescriptorView, TypeDescriptor};
use crate::util::{div_toward_zero, rem_toward_zero, RDate, RTime};
use crate::values::{
    clone_bytes,
    AvromaticValue,
    HostNumber,
    HostValue,
    HostView,
    ModelInstance,
    ValueView,
};
use vstd::prelude::*;

verus! {

/// An integer as the library hands it to the host: in no float form.
pub open spec fn host_integer(n: i64) -> HostView {
    HostView::Number(HostNumber { integer: true, as_integer: Some(n), as_double: None, as_single: None })
}

/// The host value of `v` under `d`; `None` where `v` is not of the kind
/// that `d` describes.
pub open spec fn to_ruby_spec(d: DescriptorView, v: ValueView) -> Option<HostView>
    decreases d, 0nat,
{
    match v {
        ValueView::Null => Some(HostView::Nil),
        ValueView::True => Some(HostView::Boolean(true)),
        ValueView::False => Some(HostView::Boolean(false)),
        ValueView::String(bytes) => Some(HostView::String(bytes)),
        ValueView::Long(n) => match d {
            DescriptorView::Date => Some(HostView::Date(n)),
            DescriptorView::TimestampMillis => Some(
                HostView::Time(
                    div_toward_zero(n as int, 1000) as i64,
                    (rem_toward_zero(n as int, 1000) * 1000) as i64,
                ),
            ),
            DescriptorView::TimestampMicros => Some(
                HostView::Time(
                    div_toward_zero(n as int, 1000000) as i64,
                    rem_toward_zero(n as int, 1000000) as i64,
                ),
            ),
            _ => Some(host_integer(n)),
        },
        ValueView::Float(bits) => Some(
            HostView::Number(
                HostNumber { integer: false, as_integer: None, as_double: None, as_single: Some(bits) },
            ),
        ),
        ValueView::Double(bits) => Some(
            HostView::Number(
                HostNumber { integer: false, as_integer: None, as_double: Some(bits), as_single: None },
            ),
        ),
        ValueView::Array(items) => match d {
            DescriptorView::Array(inner) => match to_ruby_items(*inner, items, 0, Seq::empty()) {
                Some(hosts) => Some(HostView::Array(hosts)),
                None => None,
            },
            _ => None,
        },
        ValueView::Mapping(entries) => match d {
            DescriptorView::Mapping(inner) => match to_ruby_entries(
                *inner,
                entries,
                0,
                Seq::empty(),
            ) {
                Some(hosts) => Some(HostView::Mapping(hosts)),
                None => None,
            },
            _ => None,
        },
        ValueView::Union(index, value) => match d {
            DescriptorView::Union(_, variants) => if index < variants.len() {
                to_ruby_spec(variants[index as int], *value)
            } else {
                None
            },
            _ => None,
        },
        ValueView::Record(storage) => Some(
            HostView::Model(
                match d {
                    DescriptorView::Record(handle) => seq![handle],
                    _ => Seq::empty(),
                },
                storage,
            ),
        ),
        ValueView::Custom(wrapped) => match d {
            DescriptorView::Custom(_, _) => Some(*wrapped),
            _ => None,
        },
    }
}

/// The host values of the items from `from` on, behind `acc`.
pub open spec fn to_ruby_items(
    inner: DescriptorView,
    items: Seq<ValueView>,
    from: nat,
    acc: Seq<HostView>,
) -> Option<Seq<HostView>>
    decreases inner, items.len() - from + 1,
{
    if from >= items.len() {
        Some(acc)
    } else {
        match to_ruby_spec(inner, items[from as int]) {
            None => None,
            Some(host) => to_ruby_items(inner, items, from + 1, acc.push(host)),
        }
    }
}

/// The host entries of the entries from `from` on, behind `acc`: each key
/// a string.
pub open spec fn to_ruby_entries(
    inner: DescriptorView,
    entries: Seq<(Seq<u8>, ValueView)>,
    from: nat,
    acc: Seq<(HostView, HostView)>,
) -> Option<Seq<(HostView, HostView)>>
    decreases inner, entries.len() - from + 1,
{
    if from >= entries.len() {
        Some(acc)
    } else {
        match to_ruby_spec(inner, entries[from as int].1) {
            None => None,
            Some(host) => to_ruby_entries(
                inner,
                entries,
                from + 1,
                acc.push((HostView::String(entries[from as int].0), host)),
            ),
        }
    }
}

/// What was handed to the host, as the contracts speak of it.
pub open spec fn handed(r: Option<HostValue>) -> Option<HostView> {
    match r {
        Some(host) => Some(host@),
        None => None,
    }
}

impl TypeDescriptor {
    /// The host value of an intermediate value; `None` where the value is
    /// not of the kind that the descriptor describes.
    pub fn to_ruby(&self, value: &AvromaticValue) -> (r: Option<HostValue>)
        ensures
            handed(r) == to_ruby_spec(self@, value@),
        decreases self, 0nat,
    {
        match value {
            AvromaticValue::Null => Some(HostValue::Nil),
            AvromaticValue::True => Some(HostValue::Boolean(true)),
            AvromaticValue::False => Some(HostValue::Boolean(false)),
            AvromaticValue::String(bytes) => Some(HostValue::String(clone_bytes(bytes))),
            AvromaticValue::Long(n) => match self {
                TypeDescriptor::Date => Some(RDate::from_integer(n)),
                TypeDescriptor::TimestampMillis => Some(RTime::from_millis(n)),
                TypeDescriptor::TimestampMicros => Some(RTime::from_micros(n)),
                _ => Some(
                    HostValue::Number(
                        HostNumber {
                            integer: true,
                            as_integer: Some(*n),
                            as_double: None,
                            as_single: None,
                        },
                    ),
                ),
            },
            AvromaticValue::Float(bits) => Some(
                HostValue::Number(
                    HostNumber {
                        integer: false,
                        as_integer: None,
                        as_double: None,
                        as_single: Some(*bits),
                    },
                ),
            ),
            AvromaticValue::Double(bits) => Some(
                HostValue::Number(
                    HostNumber {
                        integer: false,
                        as_integer: None,
                        as_double: Some(*bits),
                        as_single: None,
                    },
                ),
            ),
            AvromaticValue::Array(items) => match self {
                TypeDescriptor::Array(inner) => {
                    let ghost views = value@->Array_0;
                    let ghost whole = to_ruby_items(inner@, views, 0, Seq::empty());
                    let ghost mut acc: Seq<HostView> = Seq::empty();
                    let mut out: Vec<HostValue> = Vec::new();
                    let mut i: usize = 0;
                    while i < items.len()
                        invariant
                            self is Array,
                            self->Array_0 == *inner,
                            value@ == ValueView::Array(views),
                            views.len() == items.len(),
                            forall|j: int| 0 <= j < items.len() ==> views[j] == (#[trigger] items[j])@,
                            whole == to_ruby_items(inner@, views, 0, Seq::empty()),
                            i <= items.len(),
                            acc.len() == out.len(),
                            forall|j: int| 0 <= j < out.len() ==> acc[j] == (#[trigger] out[j])@,
                            whole == to_ruby_items(inner@, views, i as nat, acc),
                        decreases items.len() - i,
                    {
                        match inner.to_ruby(&items[i]) {
                            None => {
                                return None;
                            },
                            Some(host) => {
                                proof {
                                    acc = acc.push(host@);
                                }
                                out.push(host);
                            },
                        }
                        i += 1;
                    }
                    let r = HostValue::Array(out);
                    assert(r@->Array_0 =~= acc);
                    Some(r)
                },
                _ => None,
            },
            AvromaticValue::Mapping(entries) => match self {
                TypeDescriptor::Mapping(inner) => {
                    let ghost views = value@->Mapping_0;
                    let ghost whole = to_ruby_entries(inner@, views, 0, Seq::empty());
                    let ghost mut acc: Seq<(HostView, HostView)> = Seq::empty();
                    let mut out: Vec<(HostValue, HostValue)> = Vec::new();
                    let mut i: usize = 0;
                    while i < entries.len()
                        invariant
                            self is Mapping,
                            self->Mapping_0 == *inner,
                            value@ == ValueView::Mapping(views),
                            views.len() == entries.len(),
                            forall|j: int|
                                0 <= j < entries.len() ==> views[j] == (
                                    (#[trigger] entries[j]).0@,
                                    entries[j].1@,
                                ),
                            whole == to_ruby_entries(inner@, views, 0, Seq::empty()),
                            i <= entries.len(),
                            acc.len() == out.len(),
                            forall|j: int|
                                0 <= j < out.len() ==> acc[j] == ((#[trigger] out[j]).0@, out[j].1@),
                            whole == to_ruby_entries(inner@, views, i as nat, acc),
                        decreases entries.len() - i,
                    {
                        match inner.to_ruby(&entries[i].1) {
                            None => {
                                return None;
                            },
                            Some(host) => {
                                let key = HostValue::String(clone_bytes(&entries[i].0));
                                proof {
                                    acc = acc.push((key@, host@));
                                }
                                out.push((key, host));
                            },
                        }
                        i += 1;
                    }
                    let r = HostValue::Mapping(out);
                    assert(r@->Mapping_0 =~= acc);
                    Some(r)
                },
                _ => None,
            },
            AvromaticValue::Union(index, inner) => match self {
                TypeDescriptor::Union(_, variants) => {
                    assert(self@->Union_1.len() == variants.len());
                    if *index < variants.len() {
                        assert(decreases_to!(self => self->Union_1));
                        assert(self@->Union_1[*index as int] == variants[*index as int]@);
                        variants[*index].to_ruby(inner)
                    } else {
                        None
                    }
                },
                _ => None,
            },
            AvromaticValue::Record(storage) => {
                let mut ancestors: Vec<usize> = Vec::new();
                if let TypeDescriptor::Record(handle) = self {
                    ancestors.push(*handle);
                    assert(ancestors@ =~= seq![*handle]);
                }
                Some(HostValue::Model(ModelInstance { ancestors, storage: storage.duplicate() }))
            },
            AvromaticValue::Custom(wrapped) => match self {
                TypeDescriptor::Custom(_, _) => Some(wrapped.duplicate()),
                _ => None,
            },
        }
    }
}

} // verus!
