use vstd::prelude::*;

verus! {

/// The error kinds a render or key-canonicalization call can surface.
/// Propagation is fail-fast: the first error anywhere in a recursive render
/// aborts the whole call and no partial output is returned.
#[derive(Clone, Copy, Debug, PartialEq, Eq, Structural)]
pub enum ErrorKind {
    /// A text value whose bytes the host could not hand over as UTF-8.
    InvalidText,
    /// A mapping key that is not a text value, in a mode that demands text keys.
    KeyMustBeText,
    /// A mapping key of a kind that has no canonical text form.
    KeyTypeInvalid,
    /// An integer mapping key outside the 64-bit representable range.
    IntegerKeyOverflow,
    /// A container nested deeper than the configured limit.
    RecursionLimitExceeded,
    /// A datetime value with a zone representation the codec does not support.
    DatetimeUnsupported,
    /// A plain time-of-day value that carries a zone offset.
    TimeHasZoneOffset,
    /// The fallback conversion hook declined to convert an unknown value.
    FallbackConversionFailed,
    /// A value of a kind the codec cannot render and no fallback hook covers.
    UnsupportedType,
}

/// A stable human-readable message for each error kind.
pub fn error_message(kind: ErrorKind) -> (msg: &'static str)
    ensures
        msg@.len() > 0,
{
    proof {
        reveal_strlit("str is not valid UTF-8");
        reveal_strlit("dict key must be str");
        reveal_strlit("dict key must a type serializable as str");
        reveal_strlit("dict integer key must fit in 64 bits");
        reveal_strlit("recursion limit reached");
        reveal_strlit("datetime library is not supported");
        reveal_strlit("datetime.time must not have tzinfo set");
        reveal_strlit("fallback conversion did not yield a value");
        reveal_strlit("type is not JSON serializable");
    }
    match kind {
        ErrorKind::InvalidText => "str is not valid UTF-8",
        ErrorKind::KeyMustBeText => "dict key must be str",
        ErrorKind::KeyTypeInvalid => "dict key must a type serializable as str",
        ErrorKind::IntegerKeyOverflow => "dict integer key must fit in 64 bits",
        ErrorKind::RecursionLimitExceeded => "recursion limit reached",
        ErrorKind::DatetimeUnsupported => "datetime library is not supported",
        ErrorKind::TimeHasZoneOffset => "datetime.time must not have tzinfo set",
        ErrorKind::FallbackConversionFailed => "fallback conversion did not yield a value",
        ErrorKind::UnsupportedType => "type is not JSON serializable",
    }
}

} // verus!
