use jsoncodec::error::{error_message, ErrorKind};
use jsoncodec::opt::{SerializerState, NON_STR_KEYS, PASSTHROUGH_DATETIME, SORT_KEYS, STRICT_INTEGER};
use jsoncodec::render::{render, ZeroDictSerializer};
use jsoncodec::value::{
    classify, DateTimeValue, DateValue, FloatValue, IntValue, ObType, TextData, TimeValue, Value,
    Zone,
};

fn text(s: &str) -> Value {
    Value::Text(TextData::Utf8(s.as_bytes().to_vec()))
}

fn int_val(i: i64) -> Value {
    Value::Int(IntValue::Signed(i))
}

fn finite_float(f: f64) -> Value {
    let dec = ryu::Buffer::new().format_finite(f).as_bytes().to_vec();
    Value::Float(FloatValue { bits: f.to_bits(), dec })
}

fn render_default(v: &Value) -> Result<Vec<u8>, ErrorKind> {
    render(v, &SerializerState::new(0))
}

fn render_opts(v: &Value, opts: u32) -> Result<Vec<u8>, ErrorKind> {
    render(v, &SerializerState::new(opts))
}

#[test]
fn renders_scalars() {
    assert_eq!(render_default(&Value::Null).unwrap(), b"null".to_vec());
    assert_eq!(render_default(&Value::Bool(true)).unwrap(), b"true".to_vec());
    assert_eq!(render_default(&Value::Bool(false)).unwrap(), b"false".to_vec());
    assert_eq!(render_default(&int_val(0)).unwrap(), b"0".to_vec());
    assert_eq!(render_default(&int_val(-42)).unwrap(), b"-42".to_vec());
    assert_eq!(render_default(&int_val(i64::MIN)).unwrap(), b"-9223372036854775808".to_vec());
    assert_eq!(
        render_default(&Value::Int(IntValue::Unsigned(u64::MAX))).unwrap(),
        b"18446744073709551615".to_vec()
    );
}

#[test]
fn renders_text_escaped() {
    assert_eq!(render_default(&text("abc")).unwrap(), b"\"abc\"".to_vec());
    assert_eq!(render_default(&text("")).unwrap(), b"\"\"".to_vec());
    assert_eq!(render_default(&text("a\"b")).unwrap(), b"\"a\\\"b\"".to_vec());
    assert_eq!(render_default(&text("a\\b")).unwrap(), b"\"a\\\\b\"".to_vec());
    assert_eq!(render_default(&text("a\nb\tc\r")).unwrap(), b"\"a\\nb\\tc\\r\"".to_vec());
    assert_eq!(render_default(&text("\x01")).unwrap(), b"\"\\u0001\"".to_vec());
    assert_eq!(render_default(&text("\x1f")).unwrap(), b"\"\\u001f\"".to_vec());
    assert_eq!(
        render_default(&text("héllo")).unwrap(),
        format!("\"héllo\"").into_bytes()
    );
    let sub = Value::TextSubclass(TextData::Utf8(b"sub".to_vec()));
    assert_eq!(render_default(&sub).unwrap(), b"\"sub\"".to_vec());
}

#[test]
fn malformed_text_is_invalid() {
    let v = Value::Text(TextData::Malformed);
    assert_eq!(render_default(&v), Err(ErrorKind::InvalidText));
    let m = Value::Mapping(vec![(Value::Text(TextData::Malformed), int_val(1))]);
    assert_eq!(render_default(&m), Err(ErrorKind::InvalidText));
}

#[test]
fn nonfinite_floats_render_null() {
    let inf = Value::Float(FloatValue { bits: f64::INFINITY.to_bits(), dec: b"bogus".to_vec() });
    assert_eq!(render_default(&inf).unwrap(), b"null".to_vec());
    let neg_inf = Value::Float(FloatValue {
        bits: f64::NEG_INFINITY.to_bits(),
        dec: b"bogus".to_vec(),
    });
    assert_eq!(render_default(&neg_inf).unwrap(), b"null".to_vec());
    let nan = Value::Float(FloatValue { bits: f64::NAN.to_bits(), dec: b"bogus".to_vec() });
    assert_eq!(render_default(&nan).unwrap(), b"null".to_vec());
    assert_eq!(render_default(&finite_float(1.5)).unwrap(), b"1.5".to_vec());
    assert_eq!(render_default(&finite_float(-0.3)).unwrap(), b"-0.3".to_vec());
}

#[test]
fn empty_containers_are_constant() {
    for opts in [0, SORT_KEYS, NON_STR_KEYS, SORT_KEYS | NON_STR_KEYS, STRICT_INTEGER] {
        assert_eq!(render_opts(&Value::Mapping(vec![]), opts).unwrap(), b"{}".to_vec());
        assert_eq!(render_opts(&Value::Sequence(vec![]), opts).unwrap(), b"[]".to_vec());
        assert_eq!(
            render_opts(&Value::ImmutableSequence(vec![]), opts).unwrap(),
            b"[]".to_vec()
        );
        assert_eq!(render_opts(&Value::Record(vec![]), opts).unwrap(), b"{}".to_vec());
    }
    let z = ZeroDictSerializer::new();
    assert_eq!(z.bytes(), b"{}".to_vec());
}

#[test]
fn sequences_join_elements() {
    let v = Value::Sequence(vec![int_val(1), Value::Null, text("x")]);
    assert_eq!(render_default(&v).unwrap(), b"[1,null,\"x\"]".to_vec());
    let nested = Value::Sequence(vec![Value::Sequence(vec![int_val(1)]), Value::Sequence(vec![])]);
    assert_eq!(render_default(&nested).unwrap(), b"[[1],[]]".to_vec());
}

#[test]
fn default_mapping_keeps_order_and_demands_text_keys() {
    let v = Value::Mapping(vec![(text("b"), int_val(1)), (text("a"), int_val(2))]);
    assert_eq!(render_default(&v).unwrap(), b"{\"b\":1,\"a\":2}".to_vec());
    let bad = Value::Mapping(vec![(int_val(1), int_val(2))]);
    assert_eq!(render_default(&bad), Err(ErrorKind::KeyMustBeText));
    let sub = Value::Mapping(vec![(Value::TextSubclass(TextData::Utf8(b"k".to_vec())), int_val(2))]);
    assert_eq!(render_default(&sub), Err(ErrorKind::KeyMustBeText));
}

#[test]
fn sort_keys_orders_entries() {
    let v = Value::Mapping(vec![(text("b"), int_val(1)), (text("a"), int_val(2))]);
    assert_eq!(render_opts(&v, SORT_KEYS).unwrap(), b"{\"a\":2,\"b\":1}".to_vec());
}

#[test]
fn non_str_keys_canonicalize() {
    let v = Value::Mapping(vec![(int_val(7), int_val(1))]);
    assert_eq!(render_opts(&v, NON_STR_KEYS).unwrap(), b"{\"7\":1}".to_vec());
    let nan_key = Value::Mapping(vec![(
        Value::Float(FloatValue { bits: f64::NAN.to_bits(), dec: b"x".to_vec() }),
        int_val(1),
    )]);
    assert_eq!(render_opts(&nan_key, NON_STR_KEYS).unwrap(), b"{\"null\":1}".to_vec());
    let uuid_key = Value::Mapping(vec![(Value::Uuid(0), int_val(1))]);
    assert_eq!(
        render_opts(&uuid_key, NON_STR_KEYS).unwrap(),
        b"{\"00000000-0000-0000-0000-000000000000\":1}".to_vec()
    );
    let date_key = Value::Mapping(vec![(
        Value::Date(DateValue { year: 2024, month: 3, day: 7 }),
        int_val(1),
    )]);
    assert_eq!(render_opts(&date_key, NON_STR_KEYS).unwrap(), b"{\"2024-03-07\":1}".to_vec());
    let bool_key = Value::Mapping(vec![(Value::Bool(true), int_val(1)), (Value::Null, int_val(2))]);
    assert_eq!(
        render_opts(&bool_key, NON_STR_KEYS).unwrap(),
        b"{\"true\":1,\"null\":2}".to_vec()
    );
    let wrapped = Value::Mapping(vec![(Value::Enumerated(Box::new(int_val(9))), int_val(1))]);
    assert_eq!(render_opts(&wrapped, NON_STR_KEYS).unwrap(), b"{\"9\":1}".to_vec());
}

#[test]
fn non_str_keys_keep_iteration_order_without_sort() {
    let v = Value::Mapping(vec![(int_val(9), int_val(1)), (text("0"), int_val(2))]);
    assert_eq!(render_opts(&v, NON_STR_KEYS).unwrap(), b"{\"9\":1,\"0\":2}".to_vec());
    assert_eq!(
        render_opts(&v, NON_STR_KEYS | SORT_KEYS).unwrap(),
        b"{\"0\":2,\"9\":1}".to_vec()
    );
}

#[test]
fn colliding_canonical_keys_keep_first_seen_order() {
    // the integer key 1 and the text key "1" canonicalize to the same text;
    // the stable sort keeps their iteration order
    let v = Value::Mapping(vec![
        (text("2"), int_val(0)),
        (int_val(1), text("from-int")),
        (text("1"), text("from-text")),
    ]);
    assert_eq!(
        render_opts(&v, NON_STR_KEYS | SORT_KEYS).unwrap(),
        b"{\"1\":\"from-int\",\"1\":\"from-text\",\"2\":0}".to_vec()
    );
}

#[test]
fn integer_key_overflow_fails() {
    let v = Value::Mapping(vec![(Value::Int(IntValue::TooLarge), int_val(1))]);
    assert_eq!(render_opts(&v, NON_STR_KEYS), Err(ErrorKind::IntegerKeyOverflow));
}

#[test]
fn invalid_key_kinds_fail() {
    let v = Value::Mapping(vec![(Value::Sequence(vec![]), int_val(1))]);
    assert_eq!(render_opts(&v, NON_STR_KEYS), Err(ErrorKind::KeyTypeInvalid));
    let frag = Value::Mapping(vec![(Value::Fragment(b"x".to_vec()), int_val(1))]);
    assert_eq!(render_opts(&frag, NON_STR_KEYS), Err(ErrorKind::KeyTypeInvalid));
}

#[test]
fn recursion_limit_fails_every_container_kind() {
    let mut seq_nest = Value::Sequence(vec![int_val(1)]);
    for _ in 0..4 {
        seq_nest = Value::Sequence(vec![seq_nest]);
    }
    let shallow_state = SerializerState::with_limit(0, 3);
    assert_eq!(render(&seq_nest, &shallow_state), Err(ErrorKind::RecursionLimitExceeded));

    let mut map_nest = Value::Mapping(vec![(text("k"), int_val(1))]);
    for _ in 0..4 {
        map_nest = Value::Mapping(vec![(text("k"), map_nest)]);
    }
    assert_eq!(render(&map_nest, &shallow_state), Err(ErrorKind::RecursionLimitExceeded));

    let mut rec_nest = Value::Record(vec![(b"f".to_vec(), int_val(1))]);
    for _ in 0..4 {
        rec_nest = Value::Record(vec![(b"f".to_vec(), rec_nest)]);
    }
    assert_eq!(render(&rec_nest, &shallow_state), Err(ErrorKind::RecursionLimitExceeded));

    let deep_state = SerializerState::with_limit(0, 64);
    assert!(render(&seq_nest, &deep_state).is_ok());
}

#[test]
fn strict_integer_bounds() {
    let ok = Value::Int(IntValue::Signed(9007199254740991));
    assert_eq!(render_opts(&ok, STRICT_INTEGER).unwrap(), b"9007199254740991".to_vec());
    let too_big = Value::Int(IntValue::Signed(9007199254740992));
    assert_eq!(render_opts(&too_big, STRICT_INTEGER), Err(ErrorKind::UnsupportedType));
    let too_small = Value::Int(IntValue::Signed(-9007199254740992));
    assert_eq!(render_opts(&too_small, STRICT_INTEGER), Err(ErrorKind::UnsupportedType));
    assert!(render_default(&too_big).is_ok());
    let unsigned_big = Value::Int(IntValue::Unsigned(9007199254740992));
    assert_eq!(render_opts(&unsigned_big, STRICT_INTEGER), Err(ErrorKind::UnsupportedType));
    assert_eq!(render_default(&Value::Int(IntValue::TooLarge)), Err(ErrorKind::UnsupportedType));
}

#[test]
fn temporal_values_render_iso() {
    let d = Value::Date(DateValue { year: 1, month: 1, day: 1 });
    assert_eq!(render_default(&d).unwrap(), b"\"0001-01-01\"".to_vec());
    let t = Value::Time(TimeValue {
        hour: 12,
        minute: 0,
        second: 0,
        microsecond: 0,
        has_offset: false,
    });
    assert_eq!(render_default(&t).unwrap(), b"\"12:00:00\"".to_vec());
    let t_us = Value::Time(TimeValue {
        hour: 1,
        minute: 2,
        second: 3,
        microsecond: 4,
        has_offset: false,
    });
    assert_eq!(render_default(&t_us).unwrap(), b"\"01:02:03.000004\"".to_vec());
    let t_tz = Value::Time(TimeValue {
        hour: 1,
        minute: 2,
        second: 3,
        microsecond: 0,
        has_offset: true,
    });
    assert_eq!(render_default(&t_tz), Err(ErrorKind::TimeHasZoneOffset));
    let dt = Value::DateTime(DateTimeValue {
        year: 2023,
        month: 12,
        day: 31,
        hour: 23,
        minute: 59,
        second: 58,
        microsecond: 123456,
        zone: Zone::Naive,
    });
    assert_eq!(render_default(&dt).unwrap(), b"\"2023-12-31T23:59:58.123456\"".to_vec());
    let dt_off = Value::DateTime(DateTimeValue {
        year: 2023,
        month: 1,
        day: 2,
        hour: 3,
        minute: 4,
        second: 5,
        microsecond: 0,
        zone: Zone::Offset(-90),
    });
    assert_eq!(render_default(&dt_off).unwrap(), b"\"2023-01-02T03:04:05-01:30\"".to_vec());
    let dt_utc = Value::DateTime(DateTimeValue {
        year: 2023,
        month: 1,
        day: 2,
        hour: 3,
        minute: 4,
        second: 5,
        microsecond: 0,
        zone: Zone::Offset(0),
    });
    assert_eq!(render_default(&dt_utc).unwrap(), b"\"2023-01-02T03:04:05+00:00\"".to_vec());
    let dt_bad = Value::DateTime(DateTimeValue {
        year: 2023,
        month: 1,
        day: 2,
        hour: 3,
        minute: 4,
        second: 5,
        microsecond: 0,
        zone: Zone::Unsupported,
    });
    assert_eq!(render_default(&dt_bad), Err(ErrorKind::DatetimeUnsupported));
}

#[test]
fn passthrough_datetime_disables_probes() {
    let d = Value::Date(DateValue { year: 2024, month: 3, day: 7 });
    assert_eq!(render_opts(&d, PASSTHROUGH_DATETIME), Err(ErrorKind::UnsupportedType));
    // a date in value position routes to the fallback, but passthrough
    // never applies to keys: their canonical text is still produced
    let key = Value::Mapping(vec![(d, int_val(1))]);
    assert_eq!(
        render_opts(&key, PASSTHROUGH_DATETIME | NON_STR_KEYS).unwrap(),
        b"{\"2024-03-07\":1}".to_vec()
    );
}

#[test]
fn uuid_renders_hyphenated_hex() {
    let v = Value::Uuid(0x0102030405060708090a0b0c0d0e0f10u128);
    assert_eq!(
        render_default(&v).unwrap(),
        b"\"01020304-0506-0708-090a-0b0c0d0e0f10\"".to_vec()
    );
    let zero = Value::Uuid(0);
    assert_eq!(
        render_default(&zero).unwrap(),
        b"\"00000000-0000-0000-0000-000000000000\"".to_vec()
    );
}

#[test]
fn fragments_pass_through_unescaped() {
    let v = Value::Fragment(b"{\"pre\":1}".to_vec());
    assert_eq!(render_default(&v).unwrap(), b"{\"pre\":1}".to_vec());
}

#[test]
fn records_render_fields_in_order() {
    let v = Value::Record(vec![(b"b".to_vec(), int_val(1)), (b"a".to_vec(), int_val(2))]);
    assert_eq!(render_default(&v).unwrap(), b"{\"b\":1,\"a\":2}".to_vec());
}

#[test]
fn enumerated_unwraps_to_payload() {
    let v = Value::Enumerated(Box::new(Value::Enumerated(Box::new(text("inner")))));
    assert_eq!(render_default(&v).unwrap(), b"\"inner\"".to_vec());
}

#[test]
fn unknown_and_numeric_kinds_are_unsupported() {
    assert_eq!(render_default(&Value::Unknown), Err(ErrorKind::UnsupportedType));
    assert_eq!(render_default(&Value::NumericScalar), Err(ErrorKind::UnsupportedType));
    assert_eq!(render_default(&Value::NumericArray), Err(ErrorKind::UnsupportedType));
}

#[test]
fn first_error_wins_and_no_partial_output() {
    let v = Value::Sequence(vec![int_val(1), Value::Unknown, Value::Int(IntValue::TooLarge)]);
    assert_eq!(render_default(&v), Err(ErrorKind::UnsupportedType));
    let sorted = Value::Mapping(vec![
        (text("a"), Value::Unknown),
        (int_val(1), int_val(2)),
    ]);
    // with sorting, every key is checked before any value renders
    assert_eq!(render_opts(&sorted, SORT_KEYS), Err(ErrorKind::KeyMustBeText));
    // in the default mode the first entry's value renders first
    assert_eq!(render_default(&sorted), Err(ErrorKind::UnsupportedType));
}

#[test]
fn classification_is_by_kind_with_option_gated_probes() {
    assert_eq!(classify(&Value::Null, 0), ObType::Null);
    assert_eq!(classify(&text("x"), 0), ObType::Text);
    assert_eq!(classify(&Value::Mapping(vec![]), 0), ObType::Mapping);
    assert_eq!(classify(&Value::NumericArray, 0), ObType::NumericArray);
    let d = Value::Date(DateValue { year: 2024, month: 1, day: 1 });
    assert_eq!(classify(&d, 0), ObType::Date);
    assert_eq!(classify(&d, PASSTHROUGH_DATETIME), ObType::Unknown);
    assert_eq!(classify(&Value::Unknown, 0), ObType::Unknown);
}

#[test]
fn error_messages_are_stable() {
    assert_eq!(error_message(ErrorKind::KeyMustBeText), "dict key must be str");
    assert_eq!(error_message(ErrorKind::RecursionLimitExceeded), "recursion limit reached");
    assert!(!error_message(ErrorKind::FallbackConversionFailed).is_empty());
}
