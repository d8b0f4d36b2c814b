//! The registry of nested record models.
//!
//! A named record that recurs in a schema graph is resolved to one model,
//! known by its handle; the registry keeps, beside each model, the
//! fingerprint of the schema it was registered with.

use crate::descriptors::{
    record_handles_below,
    registry_wf,
    RecordDescriptor,
    RegisteredModel,
    RegistryView,
};
use crate::values::{bytes_equal, slice_to_vec};
use vstd::prelude::*;
use vstd::utf8::encode_utf8;

verus! {

/// The models registered so far, by handle, and the namespace prefix that
/// registry keys leave out.
#[derive(Debug, PartialEq, Eq)]
pub struct ModelRegistry {
    pub models: Vec<RegisteredModel>,
    pub prefix: Option<String>,
}

impl View for ModelRegistry {
    type V = RegistryView;

    open spec fn view(&self) -> RegistryView {
        Seq::new(self.models.len() as nat, |i: int| self.models[i]@)
    }
}

/// Whether `bytes` begins with `prefix`.
pub open spec fn starts_with(bytes: Seq<u8>, prefix: Seq<u8>) -> bool {
    prefix.len() <= bytes.len() && bytes.subrange(0, prefix.len() as int) == prefix
}

/// The key under which a name is registered: the name without the
/// namespace prefix, and without the dot that follows the prefix.
pub open spec fn registry_key_spec(prefix: Option<Seq<char>>, name: Seq<char>) -> Seq<u8> {
    let bytes = encode_utf8(name);
    match prefix {
        None => bytes,
        Some(p) => {
            let head = encode_utf8(p);
            if starts_with(bytes, head) {
                if head.len() < bytes.len() && bytes[head.len() as int] == 46 {
                    bytes.subrange(head.len() as int + 1, bytes.len() as int)
                } else {
                    bytes.subrange(head.len() as int, bytes.len() as int)
                }
            } else {
                bytes
            }
        },
    }
}

/// The handle of the first model from `from` on that is registered under
/// `key`.
pub open spec fn lookup_spec(registry: RegistryView, key: Seq<u8>, from: nat) -> Option<usize>
    decreases registry.len() - from,
{
    if from >= registry.len() {
        None
    } else if registry[from as int].key == key {
        Some(from as usize)
    } else {
        lookup_spec(registry, key, from + 1)
    }
}

/// Where `lookup_spec` finds a model, the model has the key.
pub proof fn lookup_finds(registry: RegistryView, key: Seq<u8>, from: nat)
    requires
        registry.len() <= usize::MAX,
    ensures
        lookup_spec(registry, key, from) matches Some(handle) ==> from <= handle < registry.len()
            && registry[handle as int].key == key,
    decreases registry.len() - from,
{
    if from < registry.len() && registry[from as int].key != key {
        lookup_finds(registry, key, from + 1);
    }
}

impl ModelRegistry {
    /// Each model refers only to models registered before it.
    pub open spec fn wf(&self) -> bool {
        registry_wf(self@)
    }

    /// The namespace prefix, as the contracts speak of it.
    pub open spec fn prefix_spec(&self) -> Option<Seq<char>> {
        match self.prefix {
            Some(p) => Some(p@),
            None => None,
        }
    }

    /// A registry without models.
    pub fn new(prefix: Option<String>) -> (r: ModelRegistry)
        ensures
            r@.len() == 0,
            r.wf(),
            r.prefix == prefix,
    {
        ModelRegistry { models: Vec::new(), prefix }
    }

    /// The key under which `name` is registered.
    pub fn registry_key(&self, name: &str) -> (r: Vec<u8>)
        ensures
            r@ == registry_key_spec(self.prefix_spec(), name@),
    {
        let bytes = name.as_bytes();
        match &self.prefix {
            None => slice_to_vec(bytes, 0, bytes.len()),
            Some(p) => {
                let head = p.as_str().as_bytes();
                if head.len() <= bytes.len() && bytes_equal(
                    vstd::slice::slice_subrange(bytes, 0, head.len()),
                    head,
                ) {
                    if head.len() < bytes.len() && bytes[head.len()] == 46 {
                        slice_to_vec(bytes, head.len() + 1, bytes.len())
                    } else {
                        slice_to_vec(bytes, head.len(), bytes.len())
                    }
                } else {
                    slice_to_vec(bytes, 0, bytes.len())
                }
            },
        }
    }

    /// The handle of the model registered under `name`, if there is one.
    pub fn lookup(&self, name: &str) -> (r: Option<usize>)
        ensures
            r == lookup_spec(self@, registry_key_spec(self.prefix_spec(), name@), 0),
            r matches Some(handle) ==> handle < self@.len(),
    {
        let key = self.registry_key(name);
        proof {
            lookup_finds(self@, key@, 0);
        }
        let mut i: usize = 0;
        while i < self.models.len()
            invariant
                i <= self.models.len(),
                self@.len() == self.models.len(),
                key@ == registry_key_spec(self.prefix_spec(), name@),
                lookup_spec(self@, key@, 0) == lookup_spec(self@, key@, i as nat),
            decreases self.models.len() - i,
        {
            assert(self@[i as int] == self.models[i as int]@);
            if bytes_equal(self.models[i].key.as_slice(), key.as_slice()) {
                return Some(i);
            }
            i += 1;
        }
        None
    }

    /// Whether a model is registered under `name`.
    pub fn is_registered(&self, name: &str) -> (r: bool)
        ensures
            r == lookup_spec(self@, registry_key_spec(self.prefix_spec(), name@), 0).is_some(),
    {
        self.lookup(name).is_some()
    }

    /// Registers a model under `name` with the fingerprint of its schema,
    /// behind the models registered before; gives its handle.
    pub fn register(&mut self, name: &str, fingerprint: Vec<u8>, descriptor: RecordDescriptor) -> (r:
        usize)
        ensures
            r == old(self)@.len(),
            final(self)@ == old(self)@.push(
                crate::descriptors::ModelView {
                    key: registry_key_spec(old(self).prefix_spec(), name@),
                    fingerprint: fingerprint@,
                    record: descriptor@,
                },
            ),
            old(self).wf() && record_handles_below(descriptor@, old(self)@.len())
                ==> final(self).wf(),
            final(self).prefix == old(self).prefix,
    {
        let key = self.registry_key(name);
        let handle = self.models.len();
        let ghost before = self@;
        self.models.push(RegisteredModel { key, fingerprint, descriptor });
        proof {
            assert(self@ =~= before.push(self.models[handle as int]@));
            if old(self).wf() && record_handles_below(descriptor@, old(self)@.len()) {
                assert forall|h: int| 0 <= h < self@.len() implies record_handles_below(
                    (#[trigger] self@[h]).record,
                    h as nat,
                ) by {
                    if h < handle {
                        assert(self@[h] == before[h]);
                    }
                }
            }
        }
        handle
    }
}

} // verus!
