use vstd::prelude::*;
use crate::opt::{opt_enabled, PASSTHROUGH_DATETIME};

verus! {

/// A host integer as the host reports it: fitting a signed 64-bit word,
/// fitting only an unsigned 64-bit word, or outside both ranges.
pub enum IntValue {
    Signed(i64),
    Unsigned(u64),
    /// Outside the whole representable range `[-2^63, 2^64-1]`.
    TooLarge,
}

/// The bytes of a host text value, or the mark that the host could not
/// hand them over as well-formed UTF-8 (an unpaired surrogate, for one).
pub enum TextData {
    Utf8(Vec<u8>),
    Malformed,
}

/// A host double. Verified code never touches floating point, so the value
/// is carried as its bit pattern together with the shortest round-trip
/// decimal text of the finite case, which the embedding layer computes
/// before handing the graph over. When the bits are not finite the codec
/// ignores `dec` and renders the literal `null`.
pub struct FloatValue {
    pub bits: u64,
    pub dec: Vec<u8>,
}

/// A calendar date, rendered as `YYYY-MM-DD`.
pub struct DateValue {
    pub year: u16,
    pub month: u8,
    pub day: u8,
}

/// A plain time of day, rendered as `HH:MM:SS[.ffffff]`. A value that
/// carries a zone offset has no defined rendering and is an error.
pub struct TimeValue {
    pub hour: u8,
    pub minute: u8,
    pub second: u8,
    pub microsecond: u32,
    pub has_offset: bool,
}

/// The zone representation of a datetime value.
pub enum Zone {
    /// No zone attached; nothing is appended.
    Naive,
    /// A fixed offset in minutes east of UTC, appended as `+HH:MM`/`-HH:MM`.
    Offset(i32),
    /// A zone the codec cannot express; rendering it is an error.
    Unsupported,
}

/// A combined date and time, rendered in the ISO-8601 combined form with
/// optional fractional seconds and zone offset.
pub struct DateTimeValue {
    pub year: u16,
    pub month: u8,
    pub day: u8,
    pub hour: u8,
    pub minute: u8,
    pub second: u8,
    pub microsecond: u32,
    pub zone: Zone,
}

/// A value of the host-managed object graph, as the codec borrows it.
/// Kinds whose payload only an outside protocol can read (numeric scalars
/// and arrays) appear as bare tags: their rendering is out of the codec's
/// scope and they route to the fallback hook like unknown values.
pub enum Value {
    Null,
    Bool(bool),
    Int(IntValue),
    Float(FloatValue),
    Text(TextData),
    /// Text with a non-trivial host type; same rendering, slower accessor.
    TextSubclass(TextData),
    Mapping(Vec<(Value, Value)>),
    Sequence(Vec<Value>),
    ImmutableSequence(Vec<Value>),
    /// A struct-like value with enumerable fields in declaration order.
    Record(Vec<(Vec<u8>, Value)>),
    /// A wrapper around one payload value; the wrapper never appears in output.
    Enumerated(Box<Value>),
    Date(DateValue),
    DateTime(DateTimeValue),
    Time(TimeValue),
    Uuid(u128),
    NumericScalar,
    NumericArray,
    /// Pre-rendered raw bytes copied through unescaped.
    Fragment(Vec<u8>),
    Unknown,
}

/// The closed tag set a value classifies to; every tag maps to exactly one
/// renderer.
#[derive(Clone, Copy, Debug, PartialEq, Eq, Structural)]
pub enum ObType {
    Null,
    Bool,
    Int,
    Float,
    Text,
    TextSubclass,
    Mapping,
    Sequence,
    ImmutableSequence,
    Record,
    Enumerated,
    Date,
    DateTime,
    Time,
    Uuid,
    NumericScalar,
    NumericArray,
    Fragment,
    Unknown,
}

/// The tag a value classifies to under the given options. Classification
/// never fails; with `PASSTHROUGH_DATETIME` enabled the date/time probes are
/// disabled and such values classify as `Unknown`, which routes them to the
/// fallback hook.
pub open spec fn spec_classify(v: Value, opts: u32) -> ObType {
    match v {
        Value::Null => ObType::Null,
        Value::Bool(_) => ObType::Bool,
        Value::Int(_) => ObType::Int,
        Value::Float(_) => ObType::Float,
        Value::Text(_) => ObType::Text,
        Value::TextSubclass(_) => ObType::TextSubclass,
        Value::Mapping(_) => ObType::Mapping,
        Value::Sequence(_) => ObType::Sequence,
        Value::ImmutableSequence(_) => ObType::ImmutableSequence,
        Value::Record(_) => ObType::Record,
        Value::Enumerated(_) => ObType::Enumerated,
        Value::Date(_) => if opt_enabled(opts, PASSTHROUGH_DATETIME) {
            ObType::Unknown
        } else {
            ObType::Date
        },
        Value::DateTime(_) => if opt_enabled(opts, PASSTHROUGH_DATETIME) {
            ObType::Unknown
        } else {
            ObType::DateTime
        },
        Value::Time(_) => if opt_enabled(opts, PASSTHROUGH_DATETIME) {
            ObType::Unknown
        } else {
            ObType::Time
        },
        Value::Uuid(_) => ObType::Uuid,
        Value::NumericScalar => ObType::NumericScalar,
        Value::NumericArray => ObType::NumericArray,
        Value::Fragment(_) => ObType::Fragment,
        Value::Unknown => ObType::Unknown,
    }
}

/// Maps a borrowed value to its tag under the given options.
pub fn classify(v: &Value, opts: u32) -> (t: ObType)
    ensures
        t == spec_classify(*v, opts),
{
    let datetime_passthrough = opts & PASSTHROUGH_DATETIME != 0;
    match v {
        Value::Null => ObType::Null,
        Value::Bool(_) => ObType::Bool,
        Value::Int(_) => ObType::Int,
        Value::Float(_) => ObType::Float,
        Value::Text(_) => ObType::Text,
        Value::TextSubclass(_) => ObType::TextSubclass,
        Value::Mapping(_) => ObType::Mapping,
        Value::Sequence(_) => ObType::Sequence,
        Value::ImmutableSequence(_) => ObType::ImmutableSequence,
        Value::Record(_) => ObType::Record,
        Value::Enumerated(_) => ObType::Enumerated,
        Value::Date(_) => if datetime_passthrough {
            ObType::Unknown
        } else {
            ObType::Date
        },
        Value::DateTime(_) => if datetime_passthrough {
            ObType::Unknown
        } else {
            ObType::DateTime
        },
        Value::Time(_) => if datetime_passthrough {
            ObType::Unknown
        } else {
            ObType::Time
        },
        Value::Uuid(_) => ObType::Uuid,
        Value::NumericScalar => ObType::NumericScalar,
        Value::NumericArray => ObType::NumericArray,
        Value::Fragment(_) => ObType::Fragment,
        Value::Unknown => ObType::Unknown,
    }
}

} // verus!
