use vstd::prelude::*;

verus! {

/// The narrowest fixed-width storage class covering a text's code points:
/// one byte for pure ASCII or extended Latin, two bytes up to the basic
/// plane, four bytes beyond it.
#[derive(Clone, Copy, Debug, PartialEq, Eq, Structural)]
pub enum StorageClass {
    Ascii,
    OneByte,
    TwoByte,
    FourByte,
}

/// The per-character byte width of a storage class.
pub open spec fn width_of(c: StorageClass) -> nat {
    match c {
        StorageClass::Ascii => 1,
        StorageClass::OneByte => 1,
        StorageClass::TwoByte => 2,
        StorageClass::FourByte => 4,
    }
}

/// The storage class the maximum code point present demands.
pub open spec fn spec_class_of(cps: Seq<u32>) -> StorageClass {
    if forall|i: int| 0 <= i < cps.len() ==> #[trigger] cps[i] <= 0x7f {
        StorageClass::Ascii
    } else if forall|i: int| 0 <= i < cps.len() ==> #[trigger] cps[i] <= 0xff {
        StorageClass::OneByte
    } else if forall|i: int| 0 <= i < cps.len() ==> #[trigger] cps[i] <= 0xffff {
        StorageClass::TwoByte
    } else {
        StorageClass::FourByte
    }
}

/// A code point widened to `w` little-endian bytes.
pub open spec fn le_bytes(cp: u32, w: nat) -> Seq<u8>
    decreases w,
{
    if w == 0 {
        Seq::empty()
    } else {
        seq![(cp % 256) as u8] + le_bytes(cp / 256, (w - 1) as nat)
    }
}

/// The first `j` code points widened to `w` bytes each, in order.
pub open spec fn fill_prefix(cps: Seq<u32>, j: int, w: nat) -> Seq<u8>
    decreases j,
{
    if j <= 0 || j > cps.len() {
        Seq::empty()
    } else {
        fill_prefix(cps, j - 1, w) + le_bytes(cps[j - 1], w)
    }
}

/// The whole filled buffer: every code point widened to `w` bytes, then a
/// terminating zero element of the same width.
pub open spec fn spec_fill(cps: Seq<u32>, w: nat) -> Seq<u8> {
    fill_prefix(cps, cps.len() as int, w) + le_bytes(0, w)
}

/// The value of a little-endian byte group.
pub open spec fn le_val(bytes: Seq<u8>) -> nat
    decreases bytes.len(),
{
    if bytes.len() == 0 {
        0
    } else {
        (bytes[0] + 256 * le_val(bytes.drop_first())) as nat
    }
}

/// The code points a filled buffer holds, read element by element.
pub open spec fn decode_elems(data: Seq<u8>, w: nat, count: nat) -> Seq<u32> {
    Seq::new(count, |i: int| le_val(data.subrange(i * w, i * w + w)) as u32)
}

/// A reconstructed text value: its storage class, its character count, and
/// the filled buffer of exactly `(char_count + 1) * width` bytes.
pub struct TextBuf {
    pub class: StorageClass,
    pub char_count: usize,
    pub data: Vec<u8>,
}

proof fn lemma_fill_prefix_len(cps: Seq<u32>, j: int, w: nat)
    requires
        0 <= j <= cps.len(),
    ensures
        fill_prefix(cps, j, w).len() == j * w,
    decreases j,
{
    if j > 0 {
        lemma_fill_prefix_len(cps, j - 1, w);
        assert(le_bytes(cps[j - 1], w).len() == w) by {
            lemma_le_bytes_len(cps[j - 1], w);
        }
        assert((j - 1) * w + w == j * w) by (nonlinear_arith);
    } else {
        assert(j * w == 0) by (nonlinear_arith)
            requires
                j == 0,
        ;
    }
}

proof fn lemma_le_bytes_len(cp: u32, w: nat)
    ensures
        le_bytes(cp, w).len() == w,
    decreases w,
{
    if w > 0 {
        lemma_le_bytes_len(cp / 256, (w - 1) as nat);
    }
}

/// Each element's byte group in the filled prefix is its own widening.
proof fn lemma_fill_prefix_chunk(cps: Seq<u32>, j: int, w: nat, i: int)
    requires
        0 <= i < j <= cps.len(),
    ensures
        fill_prefix(cps, j, w).subrange(i * w, i * w + w) == le_bytes(cps[i], w),
    decreases j,
{
    lemma_fill_prefix_len(cps, j, w);
    lemma_le_bytes_len(cps[j - 1], w);
    lemma_fill_prefix_len(cps, j - 1, w);
    assert(0 <= i * w && i * w + w <= j * w) by (nonlinear_arith)
        requires
            0 <= i < j,
            w >= 0,
    ;
    if i == j - 1 {
        assert(fill_prefix(cps, j, w).subrange(i * w, i * w + w) =~= le_bytes(cps[i], w));
    } else {
        lemma_fill_prefix_chunk(cps, j - 1, w, i);
        assert(i * w + w <= (j - 1) * w) by (nonlinear_arith)
            requires
                0 <= i < j - 1,
                w >= 0,
        ;
        assert(fill_prefix(cps, j, w).subrange(i * w, i * w + w) =~= fill_prefix(
            cps,
            j - 1,
            w,
        ).subrange(i * w, i * w + w));
    }
}

/// Reading a widened element back gives the code point, as long as the
/// element fits the width.
proof fn lemma_le_roundtrip(cp: u32, w: nat)
    requires
        w == 1 ==> cp <= 0xff,
        w == 2 ==> cp <= 0xffff,
        w == 1 || w == 2 || w == 4,
    ensures
        le_val(le_bytes(cp, w)) == cp,
{
    reveal_with_fuel(le_bytes, 6);
    reveal_with_fuel(le_val, 6);
    let b0 = (cp % 256) as u8;
    let c1 = cp / 256;
    assert(le_bytes(cp, w)[0] == b0);
    assert(le_bytes(cp, w).drop_first() =~= le_bytes(c1, (w - 1) as nat));
    if w == 1 {
        assert(le_bytes(c1, 0).len() == 0);
        assert(le_val(le_bytes(cp, 1)) == cp % 256);
    } else if w == 2 {
        assert(le_bytes(c1, 1).drop_first() =~= le_bytes(c1 / 256, 0));
        assert(le_val(le_bytes(c1, 1)) == c1 % 256);
        assert(c1 <= 0xff);
        assert(le_val(le_bytes(cp, 2)) == cp % 256 + 256 * (c1 % 256));
        assert(cp % 256 + 256 * (cp / 256) == cp) by (nonlinear_arith);
    } else {
        let c2 = c1 / 256;
        let c3 = c2 / 256;
        assert(le_bytes(c1, 3).drop_first() =~= le_bytes(c2, 2));
        assert(le_bytes(c2, 2).drop_first() =~= le_bytes(c3, 1));
        assert(le_bytes(c3, 1).drop_first() =~= le_bytes(c3 / 256, 0));
        assert(le_val(le_bytes(cp, 4)) == cp % 256 + 256 * (c1 % 256 + 256 * (c2 % 256 + 256 * (c3
            % 256))));
        assert(cp % 256 + 256 * (c1 % 256 + 256 * (c2 % 256 + 256 * (c3 % 256))) == cp)
            by (nonlinear_arith)
            requires
                c1 == cp / 256,
                c2 == c1 / 256,
                c3 == c2 / 256,
                cp < 0x100000000,
        ;
    }
}

/// The round-trip law of the materializer: decoding the filled buffer at
/// the chosen width reproduces the original code point sequence exactly.
pub proof fn lemma_materialize_roundtrip(cps: Seq<u32>, w: nat)
    requires
        w == width_of(spec_class_of(cps)),
    ensures
        decode_elems(spec_fill(cps, w), w, cps.len()) == cps,
{
    let filled = spec_fill(cps, w);
    lemma_fill_prefix_len(cps, cps.len() as int, w);
    assert forall|i: int| 0 <= i < cps.len() implies decode_elems(filled, w, cps.len())[i]
        == cps[i] by {
        lemma_fill_prefix_chunk(cps, cps.len() as int, w, i);
        assert(0 <= i * w && i * w + w <= cps.len() * w) by (nonlinear_arith)
            requires
                0 <= i < cps.len(),
                w >= 0,
        ;
        assert(filled.subrange(i * w, i * w + w) =~= fill_prefix(
            cps,
            cps.len() as int,
            w,
        ).subrange(i * w, i * w + w));
        assert(cps[i] <= 0xffffffff);
        lemma_le_roundtrip(cps[i], w);
    }
    assert(decode_elems(filled, w, cps.len()) =~= cps);
}

/// Picks the storage class the maximum code point present demands.
pub fn storage_class_of(cps: &Vec<u32>) -> (c: StorageClass)
    ensures
        c == spec_class_of(cps@),
{
    let n: usize = cps.len();
    let mut m: u32 = 0;
    let mut j: usize = 0;
    while j < n
        invariant
            n == cps@.len(),
            j <= n,
            forall|i: int| 0 <= i < j ==> #[trigger] cps@[i] <= m,
            m == 0 || exists|i: int| 0 <= i < j && cps@[i] == m,
        decreases n - j,
    {
        if cps[j] > m {
            m = cps[j];
        }
        j = j + 1;
    }
    if m <= 0x7f {
        StorageClass::Ascii
    } else if m <= 0xff {
        StorageClass::OneByte
    } else if m <= 0xffff {
        StorageClass::TwoByte
    } else {
        StorageClass::FourByte
    }
}

/// Appends one code point as `w` little-endian bytes.
fn push_le(dst: &mut Vec<u8>, cp: u32, w: usize)
    requires
        w == 1 || w == 2 || w == 4,
        w == 1 ==> cp <= 0xff,
        w == 2 ==> cp <= 0xffff,
    ensures
        final(dst)@ == old(dst)@ + le_bytes(cp, w as nat),
{
    if w == 1 {
        dst.push((cp % 256) as u8);
        assert(dst@ =~= old(dst)@ + le_bytes(cp, 1)) by {
            reveal_with_fuel(le_bytes, 3);
            assert(le_bytes(cp, 1) =~= seq![(cp % 256) as u8]);
        }
    } else if w == 2 {
        dst.push((cp % 256) as u8);
        dst.push(((cp / 256) % 256) as u8);
        assert(dst@ =~= old(dst)@ + le_bytes(cp, 2)) by {
            reveal_with_fuel(le_bytes, 4);
            assert(le_bytes(cp, 2) =~= seq![(cp % 256) as u8, ((cp / 256) % 256) as u8]);
        }
    } else {
        dst.push((cp % 256) as u8);
        dst.push(((cp / 256) % 256) as u8);
        dst.push(((cp / 65536) % 256) as u8);
        dst.push(((cp / 16777216) % 256) as u8);
        assert(dst@ =~= old(dst)@ + le_bytes(cp, 4)) by {
            reveal_with_fuel(le_bytes, 6);
            assert(cp / 256 / 256 == cp / 65536) by (nonlinear_arith);
            assert(cp / 256 / 256 / 256 == cp / 16777216) by (nonlinear_arith);
            assert(le_bytes(cp, 4) =~= seq![
                (cp % 256) as u8,
                ((cp / 256) % 256) as u8,
                ((cp / 65536) % 256) as u8,
                ((cp / 16777216) % 256) as u8,
            ]);
        }
    }
}

/// Builds the narrowest fixed-width text buffer for the decoded code
/// points: measure the maximum code point, allocate one element per
/// character plus a zero terminator at the chosen width, and widen every
/// code point into it in order.
pub fn materialize(cps: &Vec<u32>) -> (t: TextBuf)
    requires
        forall|i: int| 0 <= i < cps@.len() ==> #[trigger] cps@[i] <= 0x10ffff,
    ensures
        t.class == spec_class_of(cps@),
        t.char_count == cps@.len(),
        t.data@ == spec_fill(cps@, width_of(spec_class_of(cps@))),
        t.data@.len() == (cps@.len() + 1) * width_of(spec_class_of(cps@)),
{
    let class = storage_class_of(cps);
    let w: usize = match class {
        StorageClass::Ascii => 1,
        StorageClass::OneByte => 1,
        StorageClass::TwoByte => 2,
        StorageClass::FourByte => 4,
    };
    let n: usize = cps.len();
    let mut data: Vec<u8> = Vec::new();
    let mut j: usize = 0;
    while j < n
        invariant
            n == cps@.len(),
            j <= n,
            w == width_of(spec_class_of(cps@)),
            class == spec_class_of(cps@),
            forall|i: int| 0 <= i < n ==> #[trigger] cps@[i] <= 0x10ffff,
            data@ == fill_prefix(cps@, j as int, w as nat),
        decreases n - j,
    {
        proof {
            if w == 1 {
                assert(cps@[j as int] <= 0xff);
            }
            if w == 2 {
                assert(cps@[j as int] <= 0xffff);
            }
        }
        push_le(&mut data, cps[j], w);
        j = j + 1;
    }
    push_le(&mut data, 0, w);
    proof {
        lemma_fill_prefix_len(cps@, n as int, w as nat);
        lemma_le_bytes_len(0, w as nat);
        assert((n + 1) * w == n * w + w) by (nonlinear_arith);
    }
    TextBuf { class, char_count: n, data }
}

/// A byte sequence read as code points one for one.
pub open spec fn widen_bytes(s: Seq<u8>) -> Seq<u32> {
    Seq::new(s.len(), |i: int| s[i] as u32)
}

/// The ASCII fast path of the materializer: a UTF-8 span whose bytes are
/// all plain ASCII is its own code point sequence, so the buffer is the
/// span copied with a zero terminator, in the ASCII storage class.
pub fn materialize_ascii(bytes: &Vec<u8>) -> (t: TextBuf)
    requires
        forall|i: int| 0 <= i < bytes@.len() ==> #[trigger] bytes@[i] <= 0x7f,
    ensures
        t.class == StorageClass::Ascii,
        t.char_count == bytes@.len(),
        t.data@ == bytes@.push(0),
        t.data@ == spec_fill(widen_bytes(bytes@), 1),
        t.class == spec_class_of(widen_bytes(bytes@)),
{
    let n: usize = bytes.len();
    let mut data: Vec<u8> = Vec::new();
    crate::fmt::append_bytes(&mut data, bytes);
    data.push(0);
    proof {
        let cps = widen_bytes(bytes@);
        assert(data@ =~= bytes@.push(0));
        lemma_ascii_fill(bytes@, bytes@.len() as int);
        assert(le_bytes(0, 1) =~= seq![0u8]) by {
            reveal_with_fuel(le_bytes, 3);
        }
        assert(data@ =~= spec_fill(cps, 1));
        assert(spec_class_of(cps) == StorageClass::Ascii);
    }
    TextBuf { class: StorageClass::Ascii, char_count: n, data }
}

/// The one-byte filling of an ASCII span is the span itself.
proof fn lemma_ascii_fill(s: Seq<u8>, j: int)
    requires
        0 <= j <= s.len(),
    ensures
        fill_prefix(widen_bytes(s), j, 1) == s.take(j),
    decreases j,
{
    if j > 0 {
        lemma_ascii_fill(s, j - 1);
        assert(le_bytes(widen_bytes(s)[j - 1], 1) =~= seq![s[j - 1]]) by {
            reveal_with_fuel(le_bytes, 3);
        }
        assert(fill_prefix(widen_bytes(s), j, 1) =~= s.take(j));
    } else {
        assert(fill_prefix(widen_bytes(s), 0, 1) =~= s.take(0));
    }
}

/// The count of code points a UTF-8 span holds: its bytes that are not
/// continuation bytes of the form `10xxxxxx`.
pub open spec fn spec_char_count(s: Seq<u8>) -> nat
    decreases s.len(),
{
    if s.len() == 0 {
        0
    } else {
        (if s[0] / 64 == 2 {
            0nat
        } else {
            1nat
        }) + spec_char_count(s.drop_first())
    }
}

/// Relies on bytecount::num_chars: it counts the bytes that do not have
/// the UTF-8 continuation form `10xxxxxx`.
#[verifier::external_body]
fn num_chars_raw(bytes: &Vec<u8>) -> (n: usize)
    ensures
        n == spec_char_count(bytes@),
{
    bytecount::num_chars(bytes.as_slice())
}

/// Counts the code points of a UTF-8 span in one pass, for sizing a
/// buffer before filling it.
pub fn utf8_char_count(bytes: &Vec<u8>) -> (n: usize)
    ensures
        n == spec_char_count(bytes@),
{
    num_chars_raw(bytes)
}

/// The hook where an embedding installs an alternative text-materializer
/// backend; the portable materializer is the only backend here, so there
/// is nothing to install.
pub fn set_str_create_fn() {
}

} // verus!
