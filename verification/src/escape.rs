use vstd::prelude::*;

verus! {

/// The lower-case hex digit of a nibble.
pub open spec fn spec_hex_digit(n: u8) -> u8 {
    if n < 10 {
        (48 + n) as u8
    } else {
        (87 + n) as u8
    }
}

/// Whether a byte must be replaced by an escape sequence inside a JSON
/// string literal: the quote, the backslash, and every byte below 0x20.
pub open spec fn needs_escape(b: u8) -> bool {
    b == 34 || b == 92 || b < 32
}

/// The bytes a single input byte contributes to the literal body: itself
/// when no escape is needed, otherwise `\"`, `\\`, `\n`, `\t`, `\r`, or
/// `\u00XX` for the remaining control bytes.
pub open spec fn escape_byte(b: u8) -> Seq<u8> {
    if b == 34 {
        seq![92u8, 34u8]
    } else if b == 92 {
        seq![92u8, 92u8]
    } else if b == 10 {
        seq![92u8, 110u8]
    } else if b == 9 {
        seq![92u8, 116u8]
    } else if b == 13 {
        seq![92u8, 114u8]
    } else if b < 32 {
        seq![92u8, 117u8, 48u8, 48u8, spec_hex_digit(b / 16), spec_hex_digit(b % 16)]
    } else {
        seq![b]
    }
}

/// The body of the literal: each input byte replaced by its contribution,
/// in order. Multi-byte UTF-8 sequences pass through untouched because
/// every byte needing an escape is a single-byte code point.
pub open spec fn escape_seq(s: Seq<u8>) -> Seq<u8>
    decreases s.len(),
{
    if s.len() == 0 {
        Seq::empty()
    } else {
        escape_byte(s[0]) + escape_seq(s.drop_first())
    }
}

/// The whole JSON string literal for the input: a leading quote, the
/// escaped body, a trailing quote.
pub open spec fn escaped(s: Seq<u8>) -> Seq<u8> {
    seq![34u8] + escape_seq(s) + seq![34u8]
}

/// The escaped body distributes over concatenation.
pub proof fn lemma_escape_seq_append(a: Seq<u8>, b: Seq<u8>)
    ensures
        escape_seq(a + b) == escape_seq(a) + escape_seq(b),
    decreases a.len(),
{
    if a.len() == 0 {
        assert(a + b =~= b);
        assert(escape_seq(a) + escape_seq(b) =~= escape_seq(b));
    } else {
        assert((a + b).drop_first() =~= a.drop_first() + b);
        lemma_escape_seq_append(a.drop_first(), b);
        assert(escape_byte((a + b)[0]) + (escape_seq(a.drop_first()) + escape_seq(b)) =~= (
        escape_byte(a[0]) + escape_seq(a.drop_first())) + escape_seq(b));
    }
}

/// Extending the input by one byte extends the escaped body by that byte's
/// contribution.
pub proof fn lemma_escape_seq_snoc(s: Seq<u8>, i: int)
    requires
        0 <= i < s.len(),
    ensures
        escape_seq(s.take(i + 1)) == escape_seq(s.take(i)) + escape_byte(s[i]),
{
    let single = seq![s[i]];
    assert(s.take(i + 1) =~= s.take(i) + single);
    lemma_escape_seq_append(s.take(i), single);
    assert(single.drop_first() =~= Seq::<u8>::empty());
    assert(single[0] == s[i]);
    assert(escape_seq(single) == escape_byte(single[0]) + escape_seq(single.drop_first()));
    assert(escape_seq(Seq::<u8>::empty()) == Seq::<u8>::empty());
    assert(escape_seq(single) =~= escape_byte(s[i]));
}

/// The lower-case hex digit of a nibble, as a byte.
fn hex_digit(n: u8) -> (d: u8)
    requires
        n < 16,
    ensures
        d == spec_hex_digit(n),
{
    if n < 10 {
        48 + n
    } else {
        87 + n
    }
}

/// Appends the escape sequence (or the byte itself) for one input byte.
fn push_escaped_byte(dst: &mut Vec<u8>, b: u8)
    ensures
        final(dst)@ == old(dst)@ + escape_byte(b),
{
    if b == 34 {
        dst.push(92);
        dst.push(34);
    } else if b == 92 {
        dst.push(92);
        dst.push(92);
    } else if b == 10 {
        dst.push(92);
        dst.push(110);
    } else if b == 9 {
        dst.push(92);
        dst.push(116);
    } else if b == 13 {
        dst.push(92);
        dst.push(114);
    } else if b < 32 {
        dst.push(92);
        dst.push(117);
        dst.push(48);
        dst.push(48);
        dst.push(hex_digit(b / 16));
        dst.push(hex_digit(b % 16));
    } else {
        dst.push(b);
    }
    assert(dst@ =~= old(dst)@ + escape_byte(b));
}

/// The scalar escaper backend: appends the JSON string literal of `src` to
/// `dst` one byte at a time and returns how many bytes it wrote. It is the
/// portable oracle every other backend must agree with byte for byte.
pub fn escape_into_scalar(dst: &mut Vec<u8>, src: &Vec<u8>) -> (n: usize)
    ensures
        final(dst)@ == old(dst)@ + escaped(src@),
        n == escaped(src@).len(),
        final(dst)@.len() == old(dst)@.len() + n,
{
    let start: usize = dst.len();
    dst.push(34);
    let len: usize = src.len();
    let mut i: usize = 0;
    while i < len
        invariant
            len == src@.len(),
            i <= len,
            dst@ == old(dst)@ + seq![34u8] + escape_seq(src@.take(i as int)),
        decreases len - i,
    {
        proof {
            lemma_escape_seq_snoc(src@, i as int);
        }
        push_escaped_byte(dst, src[i]);
        i = i + 1;
    }
    dst.push(34);
    proof {
        assert(src@.take(len as int) =~= src@);
        assert(old(dst)@ + seq![34u8] + escape_seq(src@) + seq![34u8] =~= old(dst)@ + escaped(
            src@,
        ));
    }
    dst.len() - start
}

/// Tells whether a byte needs an escape sequence.
fn needs_escape_byte(b: u8) -> (r: bool)
    ensures
        r == needs_escape(b),
{
    b == 34 || b == 92 || b < 32
}

/// The striding escaper backend: appends the JSON string literal of `src`
/// to `dst` and returns how many bytes it wrote. It scans the input in
/// fixed-width strides; a stride without quote, backslash or control byte
/// is copied verbatim in one go, and only a stride with a hit falls back to
/// per-byte escaping. Its output is byte-identical to the scalar backend's:
/// both are pinned to the same `escaped` sequence.
pub fn escape_into(dst: &mut Vec<u8>, src: &Vec<u8>) -> (n: usize)
    ensures
        final(dst)@ == old(dst)@ + escaped(src@),
        n == escaped(src@).len(),
        final(dst)@.len() == old(dst)@.len() + n,
{
    let start: usize = dst.len();
    dst.push(34);
    let len: usize = src.len();
    let mut i: usize = 0;
    while i < len
        invariant
            len == src@.len(),
            i <= len,
            dst@ == old(dst)@ + seq![34u8] + escape_seq(src@.take(i as int)),
        decreases len - i,
    {
        let stride_end: usize = if len - i >= 16 {
            i + 16
        } else {
            len
        };
        let mut clean = true;
        let mut j: usize = i;
        while j < stride_end
            invariant
                len == src@.len(),
                i <= j <= stride_end <= len,
                clean == (forall|k: int| i <= k < j ==> !needs_escape(src@[k])),
            decreases stride_end - j,
        {
            if needs_escape_byte(src[j]) {
                clean = false;
            }
            j = j + 1;
        }
        if clean {
            let mut j: usize = i;
            while j < stride_end
                invariant
                    len == src@.len(),
                    i <= j <= stride_end <= len,
                    forall|k: int| i <= k < stride_end ==> !needs_escape(src@[k]),
                    dst@ == old(dst)@ + seq![34u8] + escape_seq(src@.take(j as int)),
                decreases stride_end - j,
            {
                proof {
                    lemma_escape_seq_snoc(src@, j as int);
                    assert(escape_byte(src@[j as int]) =~= seq![src@[j as int]]);
                }
                dst.push(src[j]);
                j = j + 1;
            }
        } else {
            let mut j: usize = i;
            while j < stride_end
                invariant
                    len == src@.len(),
                    i <= j <= stride_end <= len,
                    dst@ == old(dst)@ + seq![34u8] + escape_seq(src@.take(j as int)),
                decreases stride_end - j,
            {
                proof {
                    lemma_escape_seq_snoc(src@, j as int);
                }
                push_escaped_byte(dst, src[j]);
                j = j + 1;
            }
        }
        i = stride_end;
    }
    dst.push(34);
    proof {
        assert(src@.take(len as int) =~= src@);
        assert(old(dst)@ + seq![34u8] + escape_seq(src@) + seq![34u8] =~= old(dst)@ + escaped(
            src@,
        ));
    }
    dst.len() - start
}

/// The value of a lower-case hex digit byte.
pub open spec fn spec_hex_val(d: u8) -> u8 {
    if 48 <= d && d <= 57 {
        (d - 48) as u8
    } else {
        (d - 87) as u8
    }
}

/// Whether a byte is a lower-case hex digit.
pub open spec fn is_hex_lower(d: u8) -> bool {
    (48 <= d && d <= 57) || (97 <= d && d <= 102)
}

pub open spec fn prepend_byte(b: u8, r: Option<Seq<u8>>) -> Option<Seq<u8>> {
    match r {
        Option::Some(s) => Option::Some(seq![b] + s),
        Option::None => Option::None,
    }
}

/// Reads a literal body back: every escape sequence the escaper can emit is
/// turned into its byte, every other byte is copied, and a stray backslash,
/// a bare quote or an escape form the escaper never writes is rejected.
pub open spec fn unescape_seq(t: Seq<u8>) -> Option<Seq<u8>>
    decreases t.len(),
{
    if t.len() == 0 {
        Option::Some(Seq::empty())
    } else if t[0] == 92 {
        if t.len() < 2 {
            Option::None
        } else if t[1] == 34 {
            prepend_byte(34, unescape_seq(t.skip(2)))
        } else if t[1] == 92 {
            prepend_byte(92, unescape_seq(t.skip(2)))
        } else if t[1] == 110 {
            prepend_byte(10, unescape_seq(t.skip(2)))
        } else if t[1] == 116 {
            prepend_byte(9, unescape_seq(t.skip(2)))
        } else if t[1] == 114 {
            prepend_byte(13, unescape_seq(t.skip(2)))
        } else if t[1] == 117 {
            if t.len() < 6 {
                Option::None
            } else if t[2] == 48 && t[3] == 48 && is_hex_lower(t[4]) && is_hex_lower(t[5]) {
                prepend_byte(
                    (spec_hex_val(t[4]) * 16 + spec_hex_val(t[5])) as u8,
                    unescape_seq(t.skip(6)),
                )
            } else {
                Option::None
            }
        } else {
            Option::None
        }
    } else if t[0] == 34 {
        Option::None
    } else {
        prepend_byte(t[0], unescape_seq(t.drop_first()))
    }
}

/// Reads a whole string literal back: it must carry its two quotes, and its
/// body must decode.
pub open spec fn unescape_literal(lit: Seq<u8>) -> Option<Seq<u8>> {
    if lit.len() >= 2 && lit[0] == 34 && lit[lit.len() - 1] == 34 {
        unescape_seq(lit.subrange(1, lit.len() - 1))
    } else {
        Option::None
    }
}

proof fn lemma_hex_digit_val(n: u8)
    requires
        n < 16,
    ensures
        is_hex_lower(spec_hex_digit(n)),
        spec_hex_val(spec_hex_digit(n)) == n,
{
}

proof fn lemma_unescape_escape_seq(s: Seq<u8>)
    ensures
        unescape_seq(escape_seq(s)) == Option::Some(s),
    decreases s.len(),
{
    if s.len() == 0 {
        assert(escape_seq(s).len() == 0);
    } else {
        let b = s[0];
        let rest = s.drop_first();
        lemma_unescape_escape_seq(rest);
        let eb = escape_byte(b);
        let t = escape_seq(s);
        assert(t == eb + escape_seq(rest));
        if b == 34 || b == 92 || b == 10 || b == 9 || b == 13 {
            assert(t.skip(2) =~= escape_seq(rest));
            assert(seq![b] + rest =~= s);
        } else if b < 32 {
            assert(t.skip(6) =~= escape_seq(rest));
            lemma_hex_digit_val(b / 16);
            lemma_hex_digit_val(b % 16);
            assert(spec_hex_val(t[4]) * 16 + spec_hex_val(t[5]) == (b / 16) * 16 + b % 16);
            assert((b / 16) * 16 + b % 16 == b) by (nonlinear_arith);
            assert(seq![b] + rest =~= s);
        } else {
            assert(t[0] == b);
            assert(t.drop_first() =~= escape_seq(rest));
            assert(seq![b] + rest =~= s);
        }
    }
}

/// The round-trip law of the escaper: reading the produced string literal
/// back yields the original text exactly.
pub proof fn lemma_escape_roundtrip(s: Seq<u8>)
    ensures
        unescape_literal(escaped(s)) == Option::Some(s),
{
    let lit = escaped(s);
    let body = escape_seq(s);
    assert(lit.len() == body.len() + 2);
    assert(lit[0] == 34);
    assert(lit[lit.len() - 1] == 34);
    assert(lit.subrange(1, lit.len() - 1) =~= body);
    lemma_unescape_escape_seq(s);
}

} // verus!
