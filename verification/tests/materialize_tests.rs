use jsoncodec::materialize::{
    materialize, materialize_ascii, set_str_create_fn, storage_class_of, utf8_char_count,
    StorageClass,
};

#[test]
fn max_code_point_200_is_one_byte() {
    let cps: Vec<u32> = vec![65, 200, 66];
    let t = materialize(&cps);
    assert_eq!(t.class, StorageClass::OneByte);
    assert_eq!(t.char_count, 3);
    assert_eq!(t.data, vec![65, 200, 66, 0]);
}

#[test]
fn max_code_point_70000_is_four_byte() {
    let cps: Vec<u32> = vec![65, 70000];
    let t = materialize(&cps);
    assert_eq!(t.class, StorageClass::FourByte);
    assert_eq!(t.char_count, 2);
    // 70000 is 0x11170, little endian 0x70 0x11 0x01 0x00
    assert_eq!(t.data, vec![65, 0, 0, 0, 0x70, 0x11, 0x01, 0, 0, 0, 0, 0]);
}

#[test]
fn reconstruction_reads_back_exactly() {
    for cps in [vec![65u32, 200, 66], vec![65, 70000], vec![0x100, 0xffff], vec![]] {
        let t = materialize(&cps);
        let w = match t.class {
            StorageClass::Ascii | StorageClass::OneByte => 1,
            StorageClass::TwoByte => 2,
            StorageClass::FourByte => 4,
        };
        assert_eq!(t.data.len(), (cps.len() + 1) * w);
        let decoded: Vec<u32> = (0..t.char_count)
            .map(|i| {
                t.data[i * w..(i + 1) * w]
                    .iter()
                    .rev()
                    .fold(0u32, |acc, b| acc * 256 + *b as u32)
            })
            .collect();
        assert_eq!(decoded, cps);
        // the terminating element is a zero of the same width
        assert!(t.data[t.char_count * w..].iter().all(|b| *b == 0));
    }
}

#[test]
fn class_thresholds() {
    assert_eq!(storage_class_of(&vec![]), StorageClass::Ascii);
    assert_eq!(storage_class_of(&vec![0x7f]), StorageClass::Ascii);
    assert_eq!(storage_class_of(&vec![0x80]), StorageClass::OneByte);
    assert_eq!(storage_class_of(&vec![0xff]), StorageClass::OneByte);
    assert_eq!(storage_class_of(&vec![0x100]), StorageClass::TwoByte);
    assert_eq!(storage_class_of(&vec![0xffff]), StorageClass::TwoByte);
    assert_eq!(storage_class_of(&vec![0x10000]), StorageClass::FourByte);
    assert_eq!(storage_class_of(&vec![1, 2, 0x10ffff]), StorageClass::FourByte);
}

#[test]
fn ascii_fast_path_matches_general_path() {
    let bytes = b"plain ascii".to_vec();
    let fast = materialize_ascii(&bytes);
    let cps: Vec<u32> = bytes.iter().map(|b| *b as u32).collect();
    let general = materialize(&cps);
    assert_eq!(fast.class, StorageClass::Ascii);
    assert_eq!(general.class, StorageClass::Ascii);
    assert_eq!(fast.char_count, general.char_count);
    assert_eq!(fast.data, general.data);
    let mut expected = bytes.clone();
    expected.push(0);
    assert_eq!(fast.data, expected);
}

#[test]
fn char_count_counts_code_points_not_bytes() {
    assert_eq!(utf8_char_count(&b"hello".to_vec()), 5);
    assert_eq!(utf8_char_count(&Vec::new()), 0);
    let s = "héllo".as_bytes().to_vec();
    assert_eq!(s.len(), 6);
    assert_eq!(utf8_char_count(&s), 5);
    let crab = "🦀".as_bytes().to_vec();
    assert_eq!(crab.len(), 4);
    assert_eq!(utf8_char_count(&crab), 1);
}

#[test]
fn backend_selection_hook_is_callable() {
    set_str_create_fn();
}
