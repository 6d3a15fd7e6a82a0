use jsoncodec::escape::{escape_into, escape_into_scalar};

fn escaped_by_both(input: &[u8]) -> Vec<u8> {
    let src = input.to_vec();
    let mut a: Vec<u8> = Vec::new();
    let na = escape_into(&mut a, &src);
    let mut b: Vec<u8> = Vec::new();
    let nb = escape_into_scalar(&mut b, &src);
    assert_eq!(a, b, "backends disagree on {:?}", input);
    assert_eq!(na, a.len());
    assert_eq!(nb, b.len());
    a
}

#[test]
fn backends_agree_on_plain_text() {
    assert_eq!(escaped_by_both(b"hello"), b"\"hello\"".to_vec());
    assert_eq!(escaped_by_both(b""), b"\"\"".to_vec());
}

#[test]
fn backends_agree_on_stride_boundaries() {
    for len in [1, 15, 16, 17, 31, 32, 33, 64] {
        let plain: Vec<u8> = (0..len).map(|i| b'a' + (i % 26) as u8).collect();
        escaped_by_both(&plain);
        for hit in 0..len {
            let mut with_quote = plain.clone();
            with_quote[hit] = b'"';
            escaped_by_both(&with_quote);
            let mut with_ctl = plain.clone();
            with_ctl[hit] = 0x03;
            escaped_by_both(&with_ctl);
        }
    }
}

#[test]
fn backends_agree_on_dense_escapes() {
    let all_specials: Vec<u8> = (0u8..0x21).chain([b'"', b'\\']).collect();
    let out = escaped_by_both(&all_specials);
    assert_eq!(out[0], b'"');
    assert_eq!(*out.last().unwrap(), b'"');
    let mixed: Vec<u8> = b"a\"b\\c\nd\te\rf\x00g".to_vec();
    assert_eq!(
        escaped_by_both(&mixed),
        b"\"a\\\"b\\\\c\\nd\\te\\rf\\u0000g\"".to_vec()
    );
}

#[test]
fn escapes_use_short_forms_and_hex() {
    assert_eq!(escaped_by_both(b"\n"), b"\"\\n\"".to_vec());
    assert_eq!(escaped_by_both(b"\t"), b"\"\\t\"".to_vec());
    assert_eq!(escaped_by_both(b"\r"), b"\"\\r\"".to_vec());
    assert_eq!(escaped_by_both(&[0x08]), b"\"\\u0008\"".to_vec());
    assert_eq!(escaped_by_both(&[0x0c]), b"\"\\u000c\"".to_vec());
    assert_eq!(escaped_by_both(&[0x1f]), b"\"\\u001f\"".to_vec());
}

#[test]
fn multibyte_utf8_passes_untouched() {
    let s = "héllo wörld ✓ 🦀";
    assert_eq!(
        escaped_by_both(s.as_bytes()),
        format!("\"{}\"", s).into_bytes()
    );
}
