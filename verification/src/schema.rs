//! The compiled schema as the descriptor builder reads it: a tree of
//! nodes, each with its kind, its name where it has one, and what its
//! kind calls for; and the literal values that a schema gives as field
//! defaults.

use crate::values::HostNumber;
use vstd::prelude::*;

verus! {

/// The kind of a schema node.
#[derive(Clone, Copy, Debug, PartialEq, Eq, Structural)]
pub enum SchemaKind {
    Null,
    Boolean,
    Int,
    Long,
    Float,
    Double,
    Bytes,
    String,
    Fixed,
    Enum,
    Array,
    Mapping,
    Union,
    Record,
    Date,
    TimestampMillis,
    TimestampMicros,
}

/// A literal value of a schema, such as a field's default.
///
/// Floats and doubles are held as their IEEE-754 bits. A number whose
/// type the schema's text does not tell, as in a JSON default, is held
/// in the forms the host supplies.
#[derive(Debug, PartialEq, Eq)]
pub enum AvroValue {
    Null,
    Number(HostNumber),
    Boolean(bool),
    Int(i32),
    Long(i64),
    Float(u32),
    Double(u64),
    Bytes(Vec<u8>),
    String(String),
    Fixed(usize, Vec<u8>),
    Enum(i32, String),
    /// The reference name of the branch, and the value under it.
    Union(String, Box<AvroValue>),
    Array(Vec<AvroValue>),
    Mapping(Vec<(String, AvroValue)>),
    Record(Vec<(String, AvroValue)>),
    Date(i32),
    TimestampMillis(i64),
    TimestampMicros(i64),
}

/// A field of a record schema.
#[derive(Debug, PartialEq, Eq)]
pub struct SchemaField {
    pub name: String,
    pub schema: SchemaNode,
    pub default: Option<AvroValue>,
}

/// A node of a compiled schema.
///
/// `children` holds the item schema of an array, the value schema of a
/// map, or the variants of a union, in declared order. A node that lacks
/// what its kind calls for is malformed, and the builder rejects it.
/// `canonical_form` is the schema's canonical text, over which its
/// fingerprint is taken.
#[derive(Debug, PartialEq, Eq)]
pub struct SchemaNode {
    pub kind: SchemaKind,
    pub fullname: Option<String>,
    pub fixed_size: Option<usize>,
    pub symbols: Option<Vec<String>>,
    pub children: Option<Vec<SchemaNode>>,
    pub fields: Option<Vec<SchemaField>>,
    pub canonical_form: Vec<u8>,
}

/// The SHA-256 digest of a byte string.
pub uninterp spec fn sha256(bytes: Seq<u8>) -> Seq<u8>;

/// `Sha256::digest` of the `sha2` crate: the SHA-256 digest of the bytes,
/// which depends on the bytes alone.
#[verifier::external_body]
pub(crate) fn sha256_digest(bytes: &[u8]) -> (r: Vec<u8>)
    ensures
        r@ == sha256(bytes@),
{
    <sha2::Sha256 as sha2::Digest>::digest(bytes).to_vec()
}

/// How a kind reads where a union refers to a variant without a name.
pub open spec fn kind_name(kind: SchemaKind) -> Seq<char> {
    match kind {
        SchemaKind::Null => "null"@,
        SchemaKind::Boolean => "boolean"@,
        SchemaKind::Int => "int"@,
        SchemaKind::Long => "long"@,
        SchemaKind::Float => "float"@,
        SchemaKind::Double => "double"@,
        SchemaKind::Bytes => "bytes"@,
        SchemaKind::String => "string"@,
        SchemaKind::Fixed => "fixed"@,
        SchemaKind::Enum => "enum"@,
        SchemaKind::Array => "array"@,
        SchemaKind::Mapping => "map"@,
        SchemaKind::Union => "union"@,
        SchemaKind::Record => "record"@,
        SchemaKind::Date => "date"@,
        SchemaKind::TimestampMillis => "timestamp-millis"@,
        SchemaKind::TimestampMicros => "timestamp-micros"@,
    }
}

impl SchemaKind {
    /// The kind's name.
    pub fn name(&self) -> (r: String)
        ensures
            r@ == kind_name(*self),
    {
        match self {
            SchemaKind::Null => String::from_str("null"),
            SchemaKind::Boolean => String::from_str("boolean"),
            SchemaKind::Int => String::from_str("int"),
            SchemaKind::Long => String::from_str("long"),
            SchemaKind::Float => String::from_str("float"),
            SchemaKind::Double => String::from_str("double"),
            SchemaKind::Bytes => String::from_str("bytes"),
            SchemaKind::String => String::from_str("string"),
            SchemaKind::Fixed => String::from_str("fixed"),
            SchemaKind::Enum => String::from_str("enum"),
            SchemaKind::Array => String::from_str("array"),
            SchemaKind::Mapping => String::from_str("map"),
            SchemaKind::Union => String::from_str("union"),
            SchemaKind::Record => String::from_str("record"),
            SchemaKind::Date => String::from_str("date"),
            SchemaKind::TimestampMillis => String::from_str("timestamp-millis"),
            SchemaKind::TimestampMicros => String::from_str("timestamp-micros"),
        }
    }
}

impl SchemaNode {
    /// The fingerprint of the schema: the SHA-256 digest of its canonical
    /// form.
    pub open spec fn fingerprint_spec(&self) -> Seq<u8> {
        sha256(self.canonical_form@)
    }

    /// The name by which a union refers to this schema as a variant: its
    /// full name where it has one, else the name of its kind.
    pub open spec fn reference_spec(&self) -> Seq<char> {
        match self.fullname {
            Some(name) => name@,
            None => kind_name(self.kind),
        }
    }

    /// The kind of the node.
    pub fn kind(&self) -> (r: SchemaKind)
        ensures
            r == self.kind,
    {
        self.kind
    }

    /// The fingerprint of the schema.
    pub fn fingerprint(&self) -> (r: Vec<u8>)
        ensures
            r@ == self.fingerprint_spec(),
    {
        sha256_digest(self.canonical_form.as_slice())
    }

    /// The name by which a union refers to this schema as a variant.
    pub fn reference(&self) -> (r: String)
        ensures
            r@ == self.reference_spec(),
    {
        match &self.fullname {
            Some(name) => name.clone(),
            None => self.kind.name(),
        }
    }
}

} // verus!
