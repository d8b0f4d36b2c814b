//! The extension point for custom types: a pair of hooks registered for a
//! named schema, layered over the type's underlying wire shape.

use crate::descriptors::CustomTypeConfiguration;
use crate::values::HostValue;
use vstd::prelude::*;

verus! {

/// The hooks of the registered extensions, as the host supplies them.
///
/// `to_avro` turns a custom value into its underlying host
/// representation, `from_avro` turns the underlying representation into
/// the custom value; `None` says that the hook failed. Nothing is known
/// of what a hook returns.
pub trait CustomTypeHooks {
    fn to_avro(&self, name: &str, value: &HostValue) -> Option<HostValue>;

    fn from_avro(&self, name: &str, value: &HostValue) -> Option<HostValue>;
}

/// The hooks of a host that registers no extension: each fails.
pub struct NoHooks;

impl CustomTypeHooks for NoHooks {
    /// No value has an underlying representation: the hook fails.
    fn to_avro(&self, name: &str, value: &HostValue) -> (r: Option<HostValue>)
        ensures
            r is None,
    {
        None
    }

    /// No representation has a custom value: the hook fails.
    fn from_avro(&self, name: &str, value: &HostValue) -> (r: Option<HostValue>)
        ensures
            r is None,
    {
        None
    }
}

/// What a conversion gives once its hook has answered: the hook's value,
/// or the value itself where the hook does not apply.
pub fn hook_outcome(applies: bool, value: &HostValue, answer: Option<HostValue>) -> (r: Option<
    HostValue,
>)
    ensures
        match r {
            Some(out) => if applies {
                answer matches Some(a) && out@ == a@
            } else {
                out@ == value@
            },
            None => applies && answer is None,
        },
{
    if applies {
        answer
    } else {
        Some(value.duplicate())
    }
}

/// The extensions that are registered, each under the full name of its
/// schema.
#[derive(Debug, PartialEq, Eq)]
pub struct CustomTypeRegistry {
    pub custom_types: Vec<CustomTypeConfiguration>,
}

impl View for CustomTypeRegistry {
    type V = Seq<crate::descriptors::CustomView>;

    open spec fn view(&self) -> Seq<crate::descriptors::CustomView> {
        Seq::new(self.custom_types.len() as nat, |i: int| self.custom_types[i]@)
    }
}

/// The first extension from `from` on that is registered under `name`.
pub open spec fn fetch_spec(
    custom_types: Seq<crate::descriptors::CustomView>,
    name: Seq<char>,
    from: nat,
) -> Option<crate::descriptors::CustomView>
    decreases custom_types.len() - from,
{
    if from >= custom_types.len() {
        None
    } else if custom_types[from as int].name == name {
        Some(custom_types[from as int])
    } else {
        fetch_spec(custom_types, name, from + 1)
    }
}

impl CustomTypeRegistry {
    /// A registry without extensions.
    pub fn new() -> (r: CustomTypeRegistry)
        ensures
            r@.len() == 0,
    {
        CustomTypeRegistry { custom_types: Vec::new() }
    }

    /// The extension registered under `name`, if there is one.
    pub fn fetch(&self, name: &str) -> (r: Option<CustomTypeConfiguration>)
        ensures
            match r {
                Some(custom) => fetch_spec(self@, name@, 0) == Some(custom@),
                None => fetch_spec(self@, name@, 0) is None,
            },
    {
        let mut i: usize = 0;
        while i < self.custom_types.len()
            invariant
                i <= self.custom_types.len(),
                fetch_spec(self@, name@, 0) == fetch_spec(self@, name@, i as nat),
            decreases self.custom_types.len() - i,
        {
            let custom = &self.custom_types[i];
            assert(self@[i as int] == custom@);
            if crate::values::str_equal(custom.name.as_str(), name) {
                return Some(
                    CustomTypeConfiguration {
                        name: custom.name.clone(),
                        to_avro: custom.to_avro,
                        from_avro: custom.from_avro,
                    },
                );
            }
            i += 1;
        }
        None
    }
}

impl CustomTypeConfiguration {
    /// Whether converting `value` to its underlying representation calls
    /// the hook: it exists, and the value is not nil.
    pub open spec fn serialize_applies(&self, value: &HostValue) -> bool {
        self.to_avro && !(value@ is Nil)
    }

    /// Whether converting `value` from its underlying representation
    /// calls the hook.
    pub open spec fn deserialize_applies(&self, value: &HostValue) -> bool {
        self.from_avro && !(value@ is Nil)
    }

    /// The underlying host representation of a custom value: what the
    /// `to_avro` hook makes of it, the value itself where there is no
    /// hook or the value is nil, `None` where the hook fails.
    pub fn serialize<H: CustomTypeHooks>(&self, value: &HostValue, hooks: &H) -> (r: Option<
        HostValue,
    >)
        ensures
            !self.serialize_applies(value) ==> (r matches Some(out) && out@ == value@),
    {
        let applies = self.to_avro && !matches!(value, HostValue::Nil);
        let answer = if applies {
            hooks.to_avro(self.name.as_str(), value)
        } else {
            None
        };
        hook_outcome(applies, value, answer)
    }

    /// The custom value for an underlying host representation: what the
    /// `from_avro` hook makes of it, the value itself where there is no
    /// hook or the value is nil, `None` where the hook fails.
    pub fn deserialize<H: CustomTypeHooks>(&self, value: &HostValue, hooks: &H) -> (r: Option<
        HostValue,
    >)
        ensures
            !self.deserialize_applies(value) ==> (r matches Some(out) && out@ == value@),
    {
        let applies = self.from_avro && !matches!(value, HostValue::Nil);
        let answer = if applies {
            hooks.from_avro(self.name.as_str(), value)
        } else {
            None
        };
        hook_outcome(applies, value, answer)
    }
}

} // verus!
