//! What coercion reports when a host value does not fit.

use crate::values::HostView;
use vstd::prelude::*;

verus! {

/// The kind of a host value, by which an error describes it.
#[derive(Clone, Copy, Debug, PartialEq, Eq, Structural)]
pub enum HostKind {
    Nil,
    Boolean,
    Integer,
    Float,
    String,
    Symbol,
    Date,
    DateTime,
    Time,
    Array,
    Mapping,
    Model,
    Object,
}

/// The name of the type that a value was expected to have.
#[derive(Clone, Copy, Debug, PartialEq, Eq, Structural)]
pub enum TypeName {
    Null,
    Boolean,
    String,
    Enum,
    Fixed(usize),
    Integer,
    Float,
    Double,
    Date,
    TimestampMillis,
    TimestampMicros,
    Array,
    Union,
    Mapping,
    Record,
}

/// A failure of coercion.
#[allow(inconsistent_fields)]
#[derive(Debug, PartialEq, Eq)]
pub enum AvromaticError {
    /// The record has no attribute of that name.
    InvalidAttribute { name: String },
    /// The value cannot be coerced to the type named.
    InvalidValue { value: HostKind, name: TypeName },
    /// The record's model is not in the registry.
    UnknownModel,
    /// A custom type's hook failed.
    CustomTypeFailed,
}

/// The model of an `AvromaticError`.
pub enum ErrorView {
    InvalidAttribute(Seq<char>),
    InvalidValue(HostKind, TypeName),
    UnknownModel,
    CustomTypeFailed,
}

impl View for AvromaticError {
    type V = ErrorView;

    open spec fn view(&self) -> ErrorView {
        match self {
            AvromaticError::InvalidAttribute { name } => ErrorView::InvalidAttribute(name@),
            AvromaticError::InvalidValue { value, name } => ErrorView::InvalidValue(*value, *name),
            AvromaticError::UnknownModel => ErrorView::UnknownModel,
            AvromaticError::CustomTypeFailed => ErrorView::CustomTypeFailed,
        }
    }
}

/// The kind of a host value.
pub open spec fn host_kind(host: HostView) -> HostKind {
    match host {
        HostView::Nil => HostKind::Nil,
        HostView::Boolean(_) => HostKind::Boolean,
        HostView::Number(n) => if n.integer {
            HostKind::Integer
        } else {
            HostKind::Float
        },
        HostView::String(_) => HostKind::String,
        HostView::Symbol(_) => HostKind::Symbol,
        HostView::Date(_) => HostKind::Date,
        HostView::DateTime(_) => HostKind::DateTime,
        HostView::Time(_, _) => HostKind::Time,
        HostView::Array(_) => HostKind::Array,
        HostView::Mapping(_) => HostKind::Mapping,
        HostView::Model(_, _) => HostKind::Model,
        HostView::Object(_) => HostKind::Object,
    }
}

/// The error for a host value that is not of the type named.
pub open spec fn bad_coercion_of(host: HostView, name: TypeName) -> AvromaticError {
    AvromaticError::InvalidValue { value: host_kind(host), name }
}

/// The decimal digits of `n`.
pub open spec fn decimal(n: nat) -> Seq<char>
    decreases n,
{
    if n < 10 {
        seq![digit(n)]
    } else {
        decimal(n / 10).push(digit(n % 10))
    }
}

/// The character of a digit.
pub open spec fn digit(d: nat) -> char {
    if d == 0 {
        '0'
    } else if d == 1 {
        '1'
    } else if d == 2 {
        '2'
    } else if d == 3 {
        '3'
    } else if d == 4 {
        '4'
    } else if d == 5 {
        '5'
    } else if d == 6 {
        '6'
    } else if d == 7 {
        '7'
    } else if d == 8 {
        '8'
    } else {
        '9'
    }
}

/// How a type name reads.
pub open spec fn type_name_text(name: TypeName) -> Seq<char> {
    match name {
        TypeName::Null => "null"@,
        TypeName::Boolean => "boolean"@,
        TypeName::String => "string"@,
        TypeName::Enum => "enum"@,
        TypeName::Fixed(size) => "fixed("@ + decimal(size as nat) + ")"@,
        TypeName::Integer => "integer"@,
        TypeName::Float => "float"@,
        TypeName::Double => "double"@,
        TypeName::Date => "date"@,
        TypeName::TimestampMillis => "timestamp-millis"@,
        TypeName::TimestampMicros => "timestamp-micros"@,
        TypeName::Array => "array"@,
        TypeName::Union => "union"@,
        TypeName::Mapping => "map"@,
        TypeName::Record => "record"@,
    }
}

/// How a kind of host value reads.
pub open spec fn host_kind_text(kind: HostKind) -> Seq<char> {
    match kind {
        HostKind::Nil => "nil"@,
        HostKind::Boolean => "a boolean"@,
        HostKind::Integer => "an integer"@,
        HostKind::Float => "a float"@,
        HostKind::String => "a string"@,
        HostKind::Symbol => "a symbol"@,
        HostKind::Date => "a date"@,
        HostKind::DateTime => "a date-time"@,
        HostKind::Time => "a time"@,
        HostKind::Array => "an array"@,
        HostKind::Mapping => "a hash"@,
        HostKind::Model => "a model"@,
        HostKind::Object => "an object"@,
    }
}

fn digit_text(d: usize) -> (r: &'static str)
    requires
        d < 10,
    ensures
        r@ == seq![digit(d as nat)],
{
    proof {
        reveal_strlit("0");
        reveal_strlit("1");
        reveal_strlit("2");
        reveal_strlit("3");
        reveal_strlit("4");
        reveal_strlit("5");
        reveal_strlit("6");
        reveal_strlit("7");
        reveal_strlit("8");
        reveal_strlit("9");
    }
    let r = if d == 0 {
        "0"
    } else if d == 1 {
        "1"
    } else if d == 2 {
        "2"
    } else if d == 3 {
        "3"
    } else if d == 4 {
        "4"
    } else if d == 5 {
        "5"
    } else if d == 6 {
        "6"
    } else if d == 7 {
        "7"
    } else if d == 8 {
        "8"
    } else {
        "9"
    };
    assert(r@ =~= seq![digit(d as nat)]);
    r
}

/// Appends the decimal digits of `n` to `text`.
fn append_decimal(text: &mut String, n: usize)
    ensures
        final(text)@ == old(text)@ + decimal(n as nat),
    decreases n,
{
    if n >= 10 {
        append_decimal(text, n / 10);
    }
    let ghost before = text@;
    text.append(digit_text(n % 10));
    proof {
        if n >= 10 {
            assert(old(text)@ + decimal((n / 10) as nat) + seq![digit((n % 10) as nat)] =~= old(
                text,
            )@ + decimal(n as nat));
        } else {
            assert(old(text)@ + seq![digit((n % 10) as nat)] =~= old(text)@ + decimal(n as nat));
        }
    }
}

impl TypeName {
    /// The name as text: `fixed(4)` for a fixed of four bytes.
    pub fn text(&self) -> (r: String)
        ensures
            r@ == type_name_text(*self),
    {
        match self {
            TypeName::Null => String::from_str("null"),
            TypeName::Boolean => String::from_str("boolean"),
            TypeName::String => String::from_str("string"),
            TypeName::Enum => String::from_str("enum"),
            TypeName::Fixed(size) => {
                let mut text = String::from_str("fixed(");
                append_decimal(&mut text, *size);
                text.append(")");
                text
            },
            TypeName::Integer => String::from_str("integer"),
            TypeName::Float => String::from_str("float"),
            TypeName::Double => String::from_str("double"),
            TypeName::Date => String::from_str("date"),
            TypeName::TimestampMillis => String::from_str("timestamp-millis"),
            TypeName::TimestampMicros => String::from_str("timestamp-micros"),
            TypeName::Array => String::from_str("array"),
            TypeName::Union => String::from_str("union"),
            TypeName::Mapping => String::from_str("map"),
            TypeName::Record => String::from_str("record"),
        }
    }
}

impl HostKind {
    /// The kind as text.
    pub fn text(&self) -> (r: String)
        ensures
            r@ == host_kind_text(*self),
    {
        match self {
            HostKind::Nil => String::from_str("nil"),
            HostKind::Boolean => String::from_str("a boolean"),
            HostKind::Integer => String::from_str("an integer"),
            HostKind::Float => String::from_str("a float"),
            HostKind::String => String::from_str("a string"),
            HostKind::Symbol => String::from_str("a symbol"),
            HostKind::Date => String::from_str("a date"),
            HostKind::DateTime => String::from_str("a date-time"),
            HostKind::Time => String::from_str("a time"),
            HostKind::Array => String::from_str("an array"),
            HostKind::Mapping => String::from_str("a hash"),
            HostKind::Model => String::from_str("a model"),
            HostKind::Object => String::from_str("an object"),
        }
    }
}

/// How an error reads.
pub open spec fn message_text(error: &AvromaticError) -> Seq<char> {
    match error {
        AvromaticError::InvalidAttribute { name } => "attribute '"@ + name@ + "' does not exist"@,
        AvromaticError::InvalidValue { value, name } => "cannot coerce "@ + host_kind_text(*value)
            + " to "@ + type_name_text(*name),
        AvromaticError::UnknownModel => "the record's model is not registered"@,
        AvromaticError::CustomTypeFailed => "a custom type's conversion failed"@,
    }
}

impl AvromaticError {
    /// The error as a sentence.
    pub fn message(&self) -> (r: String)
        ensures
            r@ == message_text(self),
    {
        match self {
            AvromaticError::InvalidAttribute { name } => {
                let mut text = String::from_str("attribute '");
                text.append(name.as_str());
                text.append("' does not exist");
                text
            },
            AvromaticError::InvalidValue { value, name } => {
                let mut text = String::from_str("cannot coerce ");
                let kind = value.text();
                text.append(kind.as_str());
                text.append(" to ");
                let expected = name.text();
                text.append(expected.as_str());
                text
            },
            AvromaticError::UnknownModel => String::from_str(
                "the record's model is not registered",
            ),
            AvromaticError::CustomTypeFailed => String::from_str(
                "a custom type's conversion failed",
            ),
        }
    }
}

} // verus!
