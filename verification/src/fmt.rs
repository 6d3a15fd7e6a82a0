use vstd::prelude::*;
use crate::escape::spec_hex_digit;
use crate::value::{DateValue, DateTimeValue, TimeValue, Zone};

verus! {

/// The minimal decimal digits of an unsigned number, most significant first.
pub open spec fn spec_udec(n: nat) -> Seq<u8>
    decreases n,
{
    if n < 10 {
        seq![(48 + n) as u8]
    } else {
        spec_udec(n / 10) + seq![(48 + n % 10) as u8]
    }
}

/// The minimal decimal text of a signed number: a leading `-` only for
/// negatives, then the digits of the magnitude.
pub open spec fn spec_idec(n: int) -> Seq<u8> {
    if n < 0 {
        seq![45u8] + spec_udec((-n) as nat)
    } else {
        spec_udec(n as nat)
    }
}

/// Relies on itoa::Buffer::format for u64: the minimal decimal digits of
/// the value, no sign, no padding.
#[verifier::external_body]
pub(crate) fn fmt_u64(n: u64) -> (r: Vec<u8>)
    ensures
        r@ == spec_udec(n as nat),
{
    itoa::Buffer::new().format(n).as_bytes().to_vec()
}

/// Relies on itoa::Buffer::format for i64: the minimal decimal digits of
/// the value, with a leading `-` only when it is negative.
#[verifier::external_body]
pub(crate) fn fmt_i64(n: i64) -> (r: Vec<u8>)
    ensures
        r@ == spec_idec(n as int),
{
    itoa::Buffer::new().format(n).as_bytes().to_vec()
}

/// Appends one vector to another byte for byte.
pub fn append_bytes(dst: &mut Vec<u8>, src: &Vec<u8>)
    ensures
        final(dst)@ == old(dst)@ + src@,
{
    let len: usize = src.len();
    let mut i: usize = 0;
    while i < len
        invariant
            len == src@.len(),
            i <= len,
            dst@ == old(dst)@ + src@.take(i as int),
        decreases len - i,
    {
        dst.push(src[i]);
        proof {
            assert(old(dst)@ + src@.take(i + 1) =~= old(dst)@ + src@.take(i as int) + seq![
                src@[i as int],
            ]);
        }
        i = i + 1;
    }
    proof {
        assert(src@.take(len as int) =~= src@);
    }
}

/// A non-finite double has all exponent bits set.
pub open spec fn f64_bits_finite(bits: u64) -> bool {
    (bits >> 52) & 0x7ff != 0x7ff
}

/// Tells whether a double, given as its bit pattern, is finite.
pub fn is_f64_bits_finite(bits: u64) -> (r: bool)
    ensures
        r == f64_bits_finite(bits),
{
    (bits >> 52) & 0x7ff != 0x7ff
}

/// Two decimal digits, zero padded, of the value's low two digits.
pub open spec fn pad2(n: nat) -> Seq<u8> {
    seq![(48 + (n / 10) % 10) as u8, (48 + n % 10) as u8]
}

/// Four decimal digits, zero padded, of the value's low four digits.
pub open spec fn pad4(n: nat) -> Seq<u8> {
    seq![
        (48 + (n / 1000) % 10) as u8,
        (48 + (n / 100) % 10) as u8,
        (48 + (n / 10) % 10) as u8,
        (48 + n % 10) as u8,
    ]
}

/// Six decimal digits, zero padded, of the value's low six digits.
pub open spec fn pad6(n: nat) -> Seq<u8> {
    seq![
        (48 + (n / 100000) % 10) as u8,
        (48 + (n / 10000) % 10) as u8,
        (48 + (n / 1000) % 10) as u8,
        (48 + (n / 100) % 10) as u8,
        (48 + (n / 10) % 10) as u8,
        (48 + n % 10) as u8,
    ]
}

fn push_pad2(dst: &mut Vec<u8>, n: u32)
    ensures
        final(dst)@ == old(dst)@ + pad2(n as nat),
{
    dst.push((48 + (n / 10) % 10) as u8);
    dst.push((48 + n % 10) as u8);
    assert(dst@ =~= old(dst)@ + pad2(n as nat));
}

fn push_pad4(dst: &mut Vec<u8>, n: u32)
    ensures
        final(dst)@ == old(dst)@ + pad4(n as nat),
{
    dst.push((48 + (n / 1000) % 10) as u8);
    dst.push((48 + (n / 100) % 10) as u8);
    dst.push((48 + (n / 10) % 10) as u8);
    dst.push((48 + n % 10) as u8);
    assert(dst@ =~= old(dst)@ + pad4(n as nat));
}

fn push_pad6(dst: &mut Vec<u8>, n: u32)
    ensures
        final(dst)@ == old(dst)@ + pad6(n as nat),
{
    dst.push((48 + (n / 100000) % 10) as u8);
    dst.push((48 + (n / 10000) % 10) as u8);
    dst.push((48 + (n / 1000) % 10) as u8);
    dst.push((48 + (n / 100) % 10) as u8);
    dst.push((48 + (n / 10) % 10) as u8);
    dst.push((48 + n % 10) as u8);
    assert(dst@ =~= old(dst)@ + pad6(n as nat));
}

/// The canonical text of a date: `YYYY-MM-DD`, zero padded. Fields beyond
/// the calendar ranges the host enforces keep only their low digits.
pub open spec fn spec_date_text(d: DateValue) -> Seq<u8> {
    pad4(d.year as nat) + seq![45u8] + pad2(d.month as nat) + seq![45u8] + pad2(d.day as nat)
}

/// Appends the canonical `YYYY-MM-DD` text of a date.
pub fn write_date(dst: &mut Vec<u8>, d: &DateValue)
    ensures
        final(dst)@ == old(dst)@ + spec_date_text(*d),
{
    push_pad4(dst, d.year as u32);
    dst.push(45);
    push_pad2(dst, d.month as u32);
    dst.push(45);
    push_pad2(dst, d.day as u32);
    assert(dst@ =~= old(dst)@ + spec_date_text(*d));
}

/// The fractional-seconds suffix: `.ffffff` when the microsecond field is
/// non-zero, nothing otherwise.
pub open spec fn spec_frac_text(microsecond: nat) -> Seq<u8> {
    if microsecond == 0 {
        Seq::empty()
    } else {
        seq![46u8] + pad6(microsecond)
    }
}

/// The canonical text of a plain time of day: `HH:MM:SS[.ffffff]`.
pub open spec fn spec_time_text(t: TimeValue) -> Seq<u8> {
    pad2(t.hour as nat) + seq![58u8] + pad2(t.minute as nat) + seq![58u8] + pad2(t.second as nat)
        + spec_frac_text(t.microsecond as nat)
}

/// Appends the canonical `HH:MM:SS[.ffffff]` text of a time of day. Whether
/// the value may carry a zone offset is the caller's decision to check.
pub fn write_time(dst: &mut Vec<u8>, t: &TimeValue)
    ensures
        final(dst)@ == old(dst)@ + spec_time_text(*t),
{
    push_pad2(dst, t.hour as u32);
    dst.push(58);
    push_pad2(dst, t.minute as u32);
    dst.push(58);
    push_pad2(dst, t.second as u32);
    if t.microsecond != 0 {
        dst.push(46);
        push_pad6(dst, t.microsecond);
    }
    assert(dst@ =~= old(dst)@ + spec_time_text(*t));
}

/// The zone suffix of a datetime: nothing when naive, otherwise the offset
/// as `+HH:MM` or `-HH:MM`. An unsupported zone has no text; rendering it
/// is an error the caller raises before coming here.
pub open spec fn spec_zone_text(z: Zone) -> Seq<u8> {
    match z {
        Zone::Naive => Seq::empty(),
        Zone::Offset(m) => (if m < 0 {
            seq![45u8]
        } else {
            seq![43u8]
        }) + pad2((abs_minutes(m) / 60) as nat) + seq![58u8] + pad2((abs_minutes(m) % 60) as nat),
        Zone::Unsupported => Seq::empty(),
    }
}

/// The magnitude of an offset in minutes.
pub open spec fn abs_minutes(m: i32) -> int {
    if m < 0 {
        -(m as int)
    } else {
        m as int
    }
}

/// The canonical ISO-8601 combined text of a datetime:
/// `YYYY-MM-DDTHH:MM:SS[.ffffff]` followed by its zone suffix.
pub open spec fn spec_datetime_text(dt: DateTimeValue) -> Seq<u8> {
    pad4(dt.year as nat) + seq![45u8] + pad2(dt.month as nat) + seq![45u8] + pad2(dt.day as nat)
        + seq![84u8] + pad2(dt.hour as nat) + seq![58u8] + pad2(dt.minute as nat) + seq![58u8]
        + pad2(dt.second as nat) + spec_frac_text(dt.microsecond as nat) + spec_zone_text(dt.zone)
}

/// Appends the canonical ISO-8601 text of a datetime whose zone the codec
/// supports.
#[verifier::rlimit(60)]
pub fn write_datetime(dst: &mut Vec<u8>, dt: &DateTimeValue)
    requires
        !(dt.zone is Unsupported),
    ensures
        final(dst)@ == old(dst)@ + spec_datetime_text(*dt),
{
    push_pad4(dst, dt.year as u32);
    dst.push(45);
    push_pad2(dst, dt.month as u32);
    dst.push(45);
    push_pad2(dst, dt.day as u32);
    dst.push(84);
    push_pad2(dst, dt.hour as u32);
    dst.push(58);
    push_pad2(dst, dt.minute as u32);
    dst.push(58);
    push_pad2(dst, dt.second as u32);
    if dt.microsecond != 0 {
        dst.push(46);
        push_pad6(dst, dt.microsecond);
    }
    match &dt.zone {
        Zone::Naive => {},
        Zone::Offset(m) => {
            let m = *m;
            let mag: u64 = if m < 0 {
                dst.push(45);
                (-(m as i64)) as u64
            } else {
                dst.push(43);
                m as u64
            };
            assert(mag == abs_minutes(m));
            push_pad2(dst, (mag / 60) as u32);
            dst.push(58);
            push_pad2(dst, (mag % 60) as u32);
        },
        Zone::Unsupported => {},
    }
    assert(dst@ =~= old(dst)@ + spec_datetime_text(*dt));
}

/// One nibble of a 128-bit value, counted from the most significant: the
/// value's hex digits are its nibbles in this order.
pub open spec fn uuid_nibble(v: u128, i: int) -> u8 {
    ((v >> ((4 * (31 - i)) as u128)) & 0xf) as u8
}

/// The canonical lower-case hyphenated hex text of a 128-bit UUID value:
/// 32 hex digits with hyphens after digits 8, 12, 16 and 20.
pub open spec fn spec_uuid_text(v: u128) -> Seq<u8> {
    uuid_group(v, 0, 8) + seq![45u8] + uuid_group(v, 8, 12) + seq![45u8] + uuid_group(v, 12, 16)
        + seq![45u8] + uuid_group(v, 16, 20) + seq![45u8] + uuid_group(v, 20, 32)
}

/// The hex digits of the nibbles in positions `[from, to)`.
pub open spec fn uuid_group(v: u128, from: int, to: int) -> Seq<u8> {
    Seq::new((to - from) as nat, |j: int| spec_hex_digit(uuid_nibble(v, from + j)))
}

proof fn lemma_nibble_bound(x: u128)
    ensures
        x & 0xf < 16,
{
    assert(x & 0xf < 16) by (bit_vector);
}

/// Appends the hex digits of the nibbles in positions `[from, to)`.
fn write_uuid_group(dst: &mut Vec<u8>, v: u128, from: u32, to: u32)
    requires
        from <= to <= 32,
    ensures
        final(dst)@ == old(dst)@ + uuid_group(v, from as int, to as int),
{
    let mut i: u32 = from;
    while i < to
        invariant
            from <= i <= to <= 32,
            dst@ == old(dst)@ + uuid_group(v, from as int, i as int),
        decreases to - i,
    {
        let sh: u32 = 4 * (31 - i);
        let nib: u128 = (v >> sh as u128) & 0xf;
        proof {
            lemma_nibble_bound(v >> sh as u128);
            assert(nib as u8 == uuid_nibble(v, i as int));
        }
        let d: u8 = if nib < 10 {
            48 + (nib as u8)
        } else {
            87 + (nib as u8)
        };
        assert(d == spec_hex_digit(uuid_nibble(v, i as int)));
        dst.push(d);
        proof {
            assert(old(dst)@ + uuid_group(v, from as int, i + 1) =~= old(dst)@ + uuid_group(
                v,
                from as int,
                i as int,
            ) + seq![spec_hex_digit(uuid_nibble(v, i as int))]);
        }
        i = i + 1;
    }
}

/// Appends the canonical 8-4-4-4-12 lower-case hex text of a UUID value.
pub fn write_uuid(dst: &mut Vec<u8>, v: u128)
    ensures
        final(dst)@ == old(dst)@ + spec_uuid_text(v),
{
    write_uuid_group(dst, v, 0, 8);
    dst.push(45);
    write_uuid_group(dst, v, 8, 12);
    dst.push(45);
    write_uuid_group(dst, v, 12, 16);
    dst.push(45);
    write_uuid_group(dst, v, 16, 20);
    dst.push(45);
    write_uuid_group(dst, v, 20, 32);
    assert(dst@ =~= old(dst)@ + spec_uuid_text(v));
}

} // verus!
