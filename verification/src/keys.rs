use vstd::prelude::*;
use crate::error::ErrorKind;
use crate::fmt::{
    fmt_i64, fmt_u64, is_f64_bits_finite, f64_bits_finite, spec_date_text, spec_datetime_text,
    spec_idec, spec_time_text, spec_udec, spec_uuid_text, write_date, write_datetime, write_time,
    write_uuid,
};
use crate::value::{IntValue, TextData, Value, Zone};

verus! {

pub open spec fn null_text() -> Seq<u8> {
    seq![110u8, 117u8, 108u8, 108u8]
}

pub open spec fn true_text() -> Seq<u8> {
    seq![116u8, 114u8, 117u8, 101u8]
}

pub open spec fn false_text() -> Seq<u8> {
    seq![102u8, 97u8, 108u8, 115u8, 101u8]
}

/// Appends the literal `null`.
pub fn push_null(dst: &mut Vec<u8>)
    ensures
        final(dst)@ == old(dst)@ + null_text(),
{
    dst.push(110);
    dst.push(117);
    dst.push(108);
    dst.push(108);
    assert(dst@ =~= old(dst)@ + null_text());
}

/// Appends the literal `true` or `false`.
pub fn push_bool(dst: &mut Vec<u8>, b: bool)
    ensures
        final(dst)@ == old(dst)@ + (if b {
            true_text()
        } else {
            false_text()
        }),
{
    if b {
        dst.push(116);
        dst.push(114);
        dst.push(117);
        dst.push(101);
        assert(dst@ =~= old(dst)@ + true_text());
    } else {
        dst.push(102);
        dst.push(97);
        dst.push(108);
        dst.push(115);
        dst.push(101);
        assert(dst@ =~= old(dst)@ + false_text());
    }
}

/// Copies a byte vector.
pub fn copy_bytes(src: &Vec<u8>) -> (r: Vec<u8>)
    ensures
        r@ == src@,
{
    let mut out: Vec<u8> = Vec::new();
    crate::fmt::append_bytes(&mut out, src);
    proof {
        assert(out@ =~= src@);
    }
    out
}

/// The canonical text a non-text mapping key converts to before emission:
/// `null`, `true`/`false`, minimal decimal digits for 64-bit representable
/// integers, the finite decimal or `null` for doubles, the canonical
/// date/time/datetime and UUID texts, the key's own bytes for text values,
/// and the payload's canonical text for an enumerated wrapper. Every other
/// kind has no canonical text and is an error; an integer outside the
/// 64-bit ranges is `IntegerKeyOverflow`.
pub open spec fn spec_canonical_key(k: Value) -> Result<Seq<u8>, ErrorKind>
    decreases k,
{
    match k {
        Value::Null => Result::Ok(null_text()),
        Value::Bool(b) => Result::Ok(
            if b {
                true_text()
            } else {
                false_text()
            },
        ),
        Value::Int(iv) => match iv {
            IntValue::Signed(i) => Result::Ok(spec_idec(i as int)),
            IntValue::Unsigned(u) => Result::Ok(spec_udec(u as nat)),
            IntValue::TooLarge => Result::Err(ErrorKind::IntegerKeyOverflow),
        },
        Value::Float(f) => Result::Ok(
            if f64_bits_finite(f.bits) {
                f.dec@
            } else {
                null_text()
            },
        ),
        Value::Text(td) => match td {
            TextData::Utf8(b) => Result::Ok(b@),
            TextData::Malformed => Result::Err(ErrorKind::InvalidText),
        },
        Value::TextSubclass(td) => match td {
            TextData::Utf8(b) => Result::Ok(b@),
            TextData::Malformed => Result::Err(ErrorKind::InvalidText),
        },
        Value::Date(d) => Result::Ok(spec_date_text(d)),
        Value::Time(t) => if t.has_offset {
            Result::Err(ErrorKind::TimeHasZoneOffset)
        } else {
            Result::Ok(spec_time_text(t))
        },
        Value::DateTime(dt) => if dt.zone is Unsupported {
            Result::Err(ErrorKind::DatetimeUnsupported)
        } else {
            Result::Ok(spec_datetime_text(dt))
        },
        Value::Uuid(u) => Result::Ok(spec_uuid_text(u)),
        Value::Enumerated(p) => spec_canonical_key(*p),
        _ => Result::Err(ErrorKind::KeyTypeInvalid),
    }
}

/// Converts a non-text mapping key to its canonical text. Datetime
/// passthrough never applies to keys, so no options influence the result.
pub fn canonical_key(k: &Value) -> (r: Result<Vec<u8>, ErrorKind>)
    ensures
        match r {
            Result::Ok(b) => spec_canonical_key(*k) == Result::<Seq<u8>, ErrorKind>::Ok(b@),
            Result::Err(e) => spec_canonical_key(*k) == Result::<Seq<u8>, ErrorKind>::Err(e),
        },
    decreases *k,
{
    match k {
        Value::Null => {
            let mut b: Vec<u8> = Vec::new();
            push_null(&mut b);
            Result::Ok(b)
        },
        Value::Bool(v) => {
            let mut b: Vec<u8> = Vec::new();
            push_bool(&mut b, *v);
            Result::Ok(b)
        },
        Value::Int(iv) => match iv {
            IntValue::Signed(i) => Result::Ok(fmt_i64(*i)),
            IntValue::Unsigned(u) => Result::Ok(fmt_u64(*u)),
            IntValue::TooLarge => Result::Err(ErrorKind::IntegerKeyOverflow),
        },
        Value::Float(f) => {
            if is_f64_bits_finite(f.bits) {
                Result::Ok(copy_bytes(&f.dec))
            } else {
                let mut b: Vec<u8> = Vec::new();
                push_null(&mut b);
                Result::Ok(b)
            }
        },
        Value::Text(td) => match td {
            TextData::Utf8(b) => Result::Ok(copy_bytes(b)),
            TextData::Malformed => Result::Err(ErrorKind::InvalidText),
        },
        Value::TextSubclass(td) => match td {
            TextData::Utf8(b) => Result::Ok(copy_bytes(b)),
            TextData::Malformed => Result::Err(ErrorKind::InvalidText),
        },
        Value::Date(d) => {
            let mut b: Vec<u8> = Vec::new();
            write_date(&mut b, d);
            Result::Ok(b)
        },
        Value::Time(t) => {
            if t.has_offset {
                Result::Err(ErrorKind::TimeHasZoneOffset)
            } else {
                let mut b: Vec<u8> = Vec::new();
                write_time(&mut b, t);
                Result::Ok(b)
            }
        },
        Value::DateTime(dt) => {
            if matches!(dt.zone, Zone::Unsupported) {
                Result::Err(ErrorKind::DatetimeUnsupported)
            } else {
                let mut b: Vec<u8> = Vec::new();
                write_datetime(&mut b, dt);
                Result::Ok(b)
            }
        },
        Value::Uuid(u) => {
            let mut b: Vec<u8> = Vec::new();
            write_uuid(&mut b, *u);
            Result::Ok(b)
        },
        Value::Enumerated(p) => canonical_key(p),
        _ => Result::Err(ErrorKind::KeyTypeInvalid),
    }
}

} // verus!
