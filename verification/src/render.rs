use vstd::prelude::*;
use crate::error::ErrorKind;
use crate::escape::{escape_into, escaped};
use crate::fmt::{append_bytes, f64_bits_finite, fmt_i64, fmt_u64, is_f64_bits_finite,
    spec_date_text, spec_datetime_text, spec_idec, spec_time_text, spec_udec, spec_uuid_text,
    write_date, write_datetime, write_time, write_uuid};
use crate::keys::{canonical_key, copy_bytes, false_text, null_text, push_bool, push_null,
    spec_canonical_key, true_text};
use crate::opt::{opt_enabled, SerializerState, NON_STR_KEYS, PASSTHROUGH_DATETIME, SORT_KEYS,
    STRICT_INTEGER};
use crate::sort::{pairs_view, sort_items, sort_pairs, KeyPos};
use crate::value::{IntValue, TextData, Value, Zone};

verus! {

/// The largest integer magnitude a double represents exactly; the bound
/// the strict-integer option enforces.
pub open spec fn max_safe_integer() -> int {
    9007199254740991
}

/// The decimal text of an integer value: an integer outside both 64-bit
/// ranges is unsupported, and under the strict-integer option so is one
/// beyond the exactly-representable 53-bit range.
pub open spec fn spec_int_text(iv: IntValue, opts: u32) -> Result<Seq<u8>, ErrorKind> {
    match iv {
        IntValue::Signed(i) => if opt_enabled(opts, STRICT_INTEGER) && (i > max_safe_integer() || (
        i as int) < -max_safe_integer()) {
            Result::Err(ErrorKind::UnsupportedType)
        } else {
            Result::Ok(spec_idec(i as int))
        },
        IntValue::Unsigned(u) => if opt_enabled(opts, STRICT_INTEGER) && u > max_safe_integer() {
            Result::Err(ErrorKind::UnsupportedType)
        } else {
            Result::Ok(spec_udec(u as nat))
        },
        IntValue::TooLarge => Result::Err(ErrorKind::UnsupportedType),
    }
}

/// The key of a mapping entry in the text-key modes: it must be a text
/// value proper, and its bytes must be well formed.
pub open spec fn spec_text_key(k: Value) -> Result<Seq<u8>, ErrorKind> {
    match k {
        Value::Text(td) => match td {
            TextData::Utf8(b) => Result::Ok(b@),
            TextData::Malformed => Result::Err(ErrorKind::InvalidText),
        },
        _ => Result::Err(ErrorKind::KeyMustBeText),
    }
}

/// Wraps a rendered body in a pair of delimiter bytes; an error passes
/// through.
pub open spec fn wrap_bytes(r: Result<Seq<u8>, ErrorKind>, open: u8, close: u8) -> Result<
    Seq<u8>,
    ErrorKind,
> {
    match r {
        Result::Ok(s) => Result::Ok(seq![open] + s + seq![close]),
        Result::Err(e) => Result::Err(e),
    }
}

/// The canonical keys of the first `j` mapping entries, in iteration
/// order, under the mapping's key mode: with non-text keys enabled every
/// key is canonicalized, otherwise each must already be text. The first
/// offending key decides the error.
pub open spec fn spec_mapping_keys(entries: Seq<(Value, Value)>, j: int, opts: u32) -> Result<
    Seq<Seq<u8>>,
    ErrorKind,
>
    decreases j,
{
    if j <= 0 {
        Result::Ok(Seq::empty())
    } else {
        match spec_mapping_keys(entries, j - 1, opts) {
            Result::Err(e) => Result::Err(e),
            Result::Ok(ks) => {
                let kr = if opt_enabled(opts, NON_STR_KEYS) {
                    spec_canonical_key(entries[j - 1].0)
                } else {
                    spec_text_key(entries[j - 1].0)
                };
                match kr {
                    Result::Err(e) => Result::Err(e),
                    Result::Ok(k) => Result::Ok(ks.push(k)),
                }
            },
        }
    }
}

/// Each canonical key paired with its entry's position.
pub open spec fn key_positions(ks: Seq<Seq<u8>>) -> Seq<KeyPos> {
    Seq::new(ks.len(), |i: int| (ks[i], i))
}

/// The order the entries of a keyed mapping are emitted in: the stable
/// sort by canonical key when sorting is requested, the iteration order
/// otherwise.
pub open spec fn spec_emit_order(ks: Seq<Seq<u8>>, opts: u32) -> Seq<KeyPos> {
    if opt_enabled(opts, SORT_KEYS) {
        sort_pairs(key_positions(ks))
    } else {
        key_positions(ks)
    }
}

/// The rendered output of a whole value under the given options, depth and
/// depth limit: `null`, `true`/`false`, decimal integers, the finite
/// decimal or `null` for doubles, string literals for text, dates, times,
/// datetimes and UUIDs, raw bytes for fragments, bracketed comma-joined
/// elements for sequences, braced key-value pairs for mappings and
/// records, and the payload's output for an enumerated wrapper. A
/// container at the depth limit, an unknown or numeric value, or a value
/// whose probes the options disabled, is an error.
pub open spec fn spec_render(v: Value, opts: u32, depth: int, limit: int) -> Result<
    Seq<u8>,
    ErrorKind,
>
    decreases v, 0int,
{
    match v {
        Value::Null => Result::Ok(null_text()),
        Value::Bool(b) => Result::Ok(
            if b {
                true_text()
            } else {
                false_text()
            },
        ),
        Value::Int(iv) => spec_int_text(iv, opts),
        Value::Float(f) => Result::Ok(
            if f64_bits_finite(f.bits) {
                f.dec@
            } else {
                null_text()
            },
        ),
        Value::Text(td) => match td {
            TextData::Utf8(b) => Result::Ok(escaped(b@)),
            TextData::Malformed => Result::Err(ErrorKind::InvalidText),
        },
        Value::TextSubclass(td) => match td {
            TextData::Utf8(b) => Result::Ok(escaped(b@)),
            TextData::Malformed => Result::Err(ErrorKind::InvalidText),
        },
        Value::Fragment(b) => Result::Ok(b@),
        Value::Date(d) => if opt_enabled(opts, PASSTHROUGH_DATETIME) {
            Result::Err(ErrorKind::UnsupportedType)
        } else {
            Result::Ok(escaped(spec_date_text(d)))
        },
        Value::Time(t) => if opt_enabled(opts, PASSTHROUGH_DATETIME) {
            Result::Err(ErrorKind::UnsupportedType)
        } else if t.has_offset {
            Result::Err(ErrorKind::TimeHasZoneOffset)
        } else {
            Result::Ok(escaped(spec_time_text(t)))
        },
        Value::DateTime(dt) => if opt_enabled(opts, PASSTHROUGH_DATETIME) {
            Result::Err(ErrorKind::UnsupportedType)
        } else if dt.zone is Unsupported {
            Result::Err(ErrorKind::DatetimeUnsupported)
        } else {
            Result::Ok(escaped(spec_datetime_text(dt)))
        },
        Value::Uuid(u) => Result::Ok(escaped(spec_uuid_text(u))),
        Value::Enumerated(p) => spec_render(*p, opts, depth, limit),
        Value::Sequence(items) => if depth >= limit {
            Result::Err(ErrorKind::RecursionLimitExceeded)
        } else if items@.len() == 0 {
            Result::Ok(seq![91u8, 93u8])
        } else {
            wrap_bytes(
                spec_items_prefix(items@, items@.len() as int, opts, depth + 1, limit),
                91,
                93,
            )
        },
        Value::ImmutableSequence(items) => if depth >= limit {
            Result::Err(ErrorKind::RecursionLimitExceeded)
        } else if items@.len() == 0 {
            Result::Ok(seq![91u8, 93u8])
        } else {
            wrap_bytes(
                spec_items_prefix(items@, items@.len() as int, opts, depth + 1, limit),
                91,
                93,
            )
        },
        Value::Mapping(entries) => if depth >= limit {
            Result::Err(ErrorKind::RecursionLimitExceeded)
        } else if entries@.len() == 0 {
            Result::Ok(seq![123u8, 125u8])
        } else if !opt_enabled(opts, SORT_KEYS) && !opt_enabled(opts, NON_STR_KEYS) {
            wrap_bytes(
                spec_entries_prefix(entries@, entries@.len() as int, opts, depth + 1, limit),
                123,
                125,
            )
        } else {
            match spec_mapping_keys(entries@, entries@.len() as int, opts) {
                Result::Err(e) => Result::Err(e),
                Result::Ok(ks) => wrap_bytes(
                    spec_pairs_prefix(
                        spec_emit_order(ks, opts),
                        entries@,
                        spec_emit_order(ks, opts).len() as int,
                        opts,
                        depth + 1,
                        limit,
                    ),
                    123,
                    125,
                ),
            }
        },
        Value::Record(fields) => if depth >= limit {
            Result::Err(ErrorKind::RecursionLimitExceeded)
        } else if fields@.len() == 0 {
            Result::Ok(seq![123u8, 125u8])
        } else {
            wrap_bytes(
                spec_fields_prefix(fields@, fields@.len() as int, opts, depth + 1, limit),
                123,
                125,
            )
        },
        Value::NumericScalar => Result::Err(ErrorKind::UnsupportedType),
        Value::NumericArray => Result::Err(ErrorKind::UnsupportedType),
        Value::Unknown => Result::Err(ErrorKind::UnsupportedType),
    }
}

/// The comma-joined output of the first `j` elements of a sequence; the
/// first failing element decides the error.
pub open spec fn spec_items_prefix(
    items: Seq<Value>,
    j: int,
    opts: u32,
    depth: int,
    limit: int,
) -> Result<Seq<u8>, ErrorKind>
    decreases items, j,
{
    if j <= 0 || j > items.len() {
        Result::Ok(Seq::empty())
    } else {
        match spec_items_prefix(items, j - 1, opts, depth, limit) {
            Result::Err(e) => Result::Err(e),
            Result::Ok(p) => match spec_render(items[j - 1], opts, depth, limit) {
                Result::Err(e) => Result::Err(e),
                Result::Ok(b) => Result::Ok(
                    if j == 1 {
                        b
                    } else {
                        p + seq![44u8] + b
                    },
                ),
            },
        }
    }
}

/// The comma-joined output of the first `j` entries of a text-key mapping
/// in iteration order: each key is checked and escaped, then its value
/// rendered, before the next entry is looked at.
pub open spec fn spec_entries_prefix(
    entries: Seq<(Value, Value)>,
    j: int,
    opts: u32,
    depth: int,
    limit: int,
) -> Result<Seq<u8>, ErrorKind>
    decreases entries, j,
{
    if j <= 0 || j > entries.len() {
        Result::Ok(Seq::empty())
    } else {
        match spec_entries_prefix(entries, j - 1, opts, depth, limit) {
            Result::Err(e) => Result::Err(e),
            Result::Ok(p) => match spec_text_key(entries[j - 1].0) {
                Result::Err(e) => Result::Err(e),
                Result::Ok(k) => match spec_render(entries[j - 1].1, opts, depth, limit) {
                    Result::Err(e) => Result::Err(e),
                    Result::Ok(b) => Result::Ok(
                        if j == 1 {
                            escaped(k) + seq![58u8] + b
                        } else {
                            p + seq![44u8] + escaped(k) + seq![58u8] + b
                        },
                    ),
                },
            },
        }
    }
}

/// The comma-joined output of the first `j` fields of a record: each field
/// name is emitted as an escaped string literal, then its value rendered.
pub open spec fn spec_fields_prefix(
    fields: Seq<(Vec<u8>, Value)>,
    j: int,
    opts: u32,
    depth: int,
    limit: int,
) -> Result<Seq<u8>, ErrorKind>
    decreases fields, j,
{
    if j <= 0 || j > fields.len() {
        Result::Ok(Seq::empty())
    } else {
        match spec_fields_prefix(fields, j - 1, opts, depth, limit) {
            Result::Err(e) => Result::Err(e),
            Result::Ok(p) => match spec_render(fields[j - 1].1, opts, depth, limit) {
                Result::Err(e) => Result::Err(e),
                Result::Ok(b) => Result::Ok(
                    if j == 1 {
                        escaped(fields[0].0@) + seq![58u8] + b
                    } else {
                        p + seq![44u8] + escaped(fields[j - 1].0@) + seq![58u8] + b
                    },
                ),
            },
        }
    }
}

/// The comma-joined output of the first `j` canonical-key pairs in their
/// emission order: each pair names the entry whose value it renders.
pub open spec fn spec_pairs_prefix(
    pairs: Seq<KeyPos>,
    entries: Seq<(Value, Value)>,
    j: int,
    opts: u32,
    depth: int,
    limit: int,
) -> Result<Seq<u8>, ErrorKind>
    decreases entries, j,
{
    if j <= 0 || j > pairs.len() {
        Result::Ok(Seq::empty())
    } else {
        match spec_pairs_prefix(pairs, entries, j - 1, opts, depth, limit) {
            Result::Err(e) => Result::Err(e),
            Result::Ok(p) => if !(0 <= pairs[j - 1].1 < entries.len()) {
                Result::Err(ErrorKind::UnsupportedType)
            } else {
                match spec_render(entries[pairs[j - 1].1].1, opts, depth, limit) {
                    Result::Err(e) => Result::Err(e),
                    Result::Ok(b) => Result::Ok(
                        if j == 1 {
                            escaped(pairs[0].0) + seq![58u8] + b
                        } else {
                            p + seq![44u8] + escaped(pairs[j - 1].0) + seq![58u8] + b
                        },
                    ),
                }
            },
        }
    }
}

/// The body of a keyed mapping: canonicalize or check every key first,
/// then emit the pairs in their emission order.
pub open spec fn spec_keyed_body(
    entries: Seq<(Value, Value)>,
    opts: u32,
    depth: int,
    limit: int,
) -> Result<Seq<u8>, ErrorKind> {
    match spec_mapping_keys(entries, entries.len() as int, opts) {
        Result::Err(e) => Result::Err(e),
        Result::Ok(ks) => spec_pairs_prefix(
            spec_emit_order(ks, opts),
            entries,
            spec_emit_order(ks, opts).len() as int,
            opts,
            depth,
            limit,
        ),
    }
}

/// A failed prefix stays failed however far the prefix is extended.
proof fn lemma_items_prefix_err(items: Seq<Value>, j: int, n: int, opts: u32, depth: int, limit: int)
    requires
        0 <= j <= n <= items.len(),
        spec_items_prefix(items, j, opts, depth, limit) is Err,
    ensures
        spec_items_prefix(items, n, opts, depth, limit) == spec_items_prefix(
            items,
            j,
            opts,
            depth,
            limit,
        ),
    decreases n - j,
{
    if n > j {
        lemma_items_prefix_err(items, j, n - 1, opts, depth, limit);
    }
}

proof fn lemma_entries_prefix_err(
    entries: Seq<(Value, Value)>,
    j: int,
    n: int,
    opts: u32,
    depth: int,
    limit: int,
)
    requires
        0 <= j <= n <= entries.len(),
        spec_entries_prefix(entries, j, opts, depth, limit) is Err,
    ensures
        spec_entries_prefix(entries, n, opts, depth, limit) == spec_entries_prefix(
            entries,
            j,
            opts,
            depth,
            limit,
        ),
    decreases n - j,
{
    if n > j {
        lemma_entries_prefix_err(entries, j, n - 1, opts, depth, limit);
    }
}

proof fn lemma_fields_prefix_err(
    fields: Seq<(Vec<u8>, Value)>,
    j: int,
    n: int,
    opts: u32,
    depth: int,
    limit: int,
)
    requires
        0 <= j <= n <= fields.len(),
        spec_fields_prefix(fields, j, opts, depth, limit) is Err,
    ensures
        spec_fields_prefix(fields, n, opts, depth, limit) == spec_fields_prefix(
            fields,
            j,
            opts,
            depth,
            limit,
        ),
    decreases n - j,
{
    if n > j {
        lemma_fields_prefix_err(fields, j, n - 1, opts, depth, limit);
    }
}

proof fn lemma_pairs_prefix_err(
    pairs: Seq<KeyPos>,
    entries: Seq<(Value, Value)>,
    j: int,
    n: int,
    opts: u32,
    depth: int,
    limit: int,
)
    requires
        0 <= j <= n <= pairs.len(),
        spec_pairs_prefix(pairs, entries, j, opts, depth, limit) is Err,
    ensures
        spec_pairs_prefix(pairs, entries, n, opts, depth, limit) == spec_pairs_prefix(
            pairs,
            entries,
            j,
            opts,
            depth,
            limit,
        ),
    decreases n - j,
{
    if n > j {
        lemma_pairs_prefix_err(pairs, entries, j, n - 1, opts, depth, limit);
    }
}

/// A successful key pass yields one canonical key per entry looked at.
proof fn lemma_mapping_keys_len(entries: Seq<(Value, Value)>, j: int, opts: u32)
    requires
        0 <= j,
        spec_mapping_keys(entries, j, opts) is Ok,
    ensures
        spec_mapping_keys(entries, j, opts)->Ok_0.len() == j,
    decreases j,
{
    if j > 0 {
        lemma_mapping_keys_len(entries, j - 1, opts);
    }
}

proof fn lemma_mapping_keys_err(entries: Seq<(Value, Value)>, j: int, n: int, opts: u32)
    requires
        0 <= j <= n <= entries.len(),
        spec_mapping_keys(entries, j, opts) is Err,
    ensures
        spec_mapping_keys(entries, n, opts) == spec_mapping_keys(entries, j, opts),
    decreases n - j,
{
    if n > j {
        lemma_mapping_keys_err(entries, j, n - 1, opts);
    }
}

/// The key of a mapping entry in the text-key modes, as owned bytes.
fn text_key_owned(k: &Value) -> (r: Result<Vec<u8>, ErrorKind>)
    ensures
        match r {
            Result::Ok(b) => spec_text_key(*k) == Result::<Seq<u8>, ErrorKind>::Ok(b@),
            Result::Err(e) => spec_text_key(*k) == Result::<Seq<u8>, ErrorKind>::Err(e),
        },
{
    match k {
        Value::Text(td) => match td {
            TextData::Utf8(b) => Result::Ok(copy_bytes(b)),
            TextData::Malformed => Result::Err(ErrorKind::InvalidText),
        },
        _ => Result::Err(ErrorKind::KeyMustBeText),
    }
}

/// Renders the comma-joined elements of a non-empty sequence, brackets not
/// included.
fn write_items(dst: &mut Vec<u8>, items: &Vec<Value>, state: SerializerState) -> (r:
    Result<(), ErrorKind>)
    ensures
        match r {
            Result::Ok(_) => spec_items_prefix(
                items@,
                items@.len() as int,
                state.opts,
                state.depth as int,
                state.limit as int,
            ) is Ok && final(dst)@ == old(dst)@ + spec_items_prefix(
                items@,
                items@.len() as int,
                state.opts,
                state.depth as int,
                state.limit as int,
            )->Ok_0,
            Result::Err(e) => spec_items_prefix(
                items@,
                items@.len() as int,
                state.opts,
                state.depth as int,
                state.limit as int,
            ) == Result::<Seq<u8>, ErrorKind>::Err(e),
        },
    decreases items@, 0int,
{
    let n: usize = items.len();
    let mut j: usize = 0;
    while j < n
        invariant
            n == items@.len(),
            j <= n,
            spec_items_prefix(items@, j as int, state.opts, state.depth as int, state.limit as int) is Ok,
            dst@ == old(dst)@ + spec_items_prefix(
                items@,
                j as int,
                state.opts,
                state.depth as int,
                state.limit as int,
            )->Ok_0,
        decreases n - j,
    {
        if j > 0 {
            dst.push(44);
        }
        match write_value(dst, &items[j], state) {
            Result::Err(e) => {
                proof {
                    lemma_items_prefix_err(
                        items@,
                        j + 1,
                        n as int,
                        state.opts,
                        state.depth as int,
                        state.limit as int,
                    );
                }
                return Result::Err(e);
            },
            Result::Ok(_) => {
                proof {
                    assert(dst@ =~= old(dst)@ + spec_items_prefix(
                        items@,
                        j + 1,
                        state.opts,
                        state.depth as int,
                        state.limit as int,
                    )->Ok_0);
                }
            },
        }
        j = j + 1;
    }
    Result::Ok(())
}

/// Renders the comma-joined entries of a non-empty text-key mapping in
/// iteration order, braces not included.
fn write_default_entries(
    dst: &mut Vec<u8>,
    entries: &Vec<(Value, Value)>,
    state: SerializerState,
) -> (r: Result<(), ErrorKind>)
    ensures
        match r {
            Result::Ok(_) => spec_entries_prefix(
                entries@,
                entries@.len() as int,
                state.opts,
                state.depth as int,
                state.limit as int,
            ) is Ok && final(dst)@ == old(dst)@ + spec_entries_prefix(
                entries@,
                entries@.len() as int,
                state.opts,
                state.depth as int,
                state.limit as int,
            )->Ok_0,
            Result::Err(e) => spec_entries_prefix(
                entries@,
                entries@.len() as int,
                state.opts,
                state.depth as int,
                state.limit as int,
            ) == Result::<Seq<u8>, ErrorKind>::Err(e),
        },
    decreases entries@, 0int,
{
    let n: usize = entries.len();
    let mut j: usize = 0;
    while j < n
        invariant
            n == entries@.len(),
            j <= n,
            spec_entries_prefix(entries@, j as int, state.opts, state.depth as int, state.limit as int) is Ok,
            dst@ == old(dst)@ + spec_entries_prefix(
                entries@,
                j as int,
                state.opts,
                state.depth as int,
                state.limit as int,
            )->Ok_0,
        decreases n - j,
    {
        if j > 0 {
            dst.push(44);
        }
        let entry = &entries[j];
        match &entry.0 {
            Value::Text(td) => match td {
                TextData::Utf8(kb) => {
                    escape_into(dst, kb);
                },
                TextData::Malformed => {
                    proof {
                        lemma_entries_prefix_err(
                            entries@,
                            j + 1,
                            n as int,
                            state.opts,
                            state.depth as int,
                            state.limit as int,
                        );
                    }
                    return Result::Err(ErrorKind::InvalidText);
                },
            },
            _ => {
                proof {
                    lemma_entries_prefix_err(
                        entries@,
                        j + 1,
                        n as int,
                        state.opts,
                        state.depth as int,
                        state.limit as int,
                    );
                }
                return Result::Err(ErrorKind::KeyMustBeText);
            },
        }
        dst.push(58);
        match write_value(dst, &entry.1, state) {
            Result::Err(e) => {
                proof {
                    lemma_entries_prefix_err(
                        entries@,
                        j + 1,
                        n as int,
                        state.opts,
                        state.depth as int,
                        state.limit as int,
                    );
                }
                return Result::Err(e);
            },
            Result::Ok(_) => {
                proof {
                    assert(dst@ =~= old(dst)@ + spec_entries_prefix(
                        entries@,
                        j + 1,
                        state.opts,
                        state.depth as int,
                        state.limit as int,
                    )->Ok_0);
                }
            },
        }
        j = j + 1;
    }
    Result::Ok(())
}

/// Renders the comma-joined fields of a non-empty record in declaration
/// order, braces not included.
fn write_fields(
    dst: &mut Vec<u8>,
    fields: &Vec<(Vec<u8>, Value)>,
    state: SerializerState,
) -> (r: Result<(), ErrorKind>)
    ensures
        match r {
            Result::Ok(_) => spec_fields_prefix(
                fields@,
                fields@.len() as int,
                state.opts,
                state.depth as int,
                state.limit as int,
            ) is Ok && final(dst)@ == old(dst)@ + spec_fields_prefix(
                fields@,
                fields@.len() as int,
                state.opts,
                state.depth as int,
                state.limit as int,
            )->Ok_0,
            Result::Err(e) => spec_fields_prefix(
                fields@,
                fields@.len() as int,
                state.opts,
                state.depth as int,
                state.limit as int,
            ) == Result::<Seq<u8>, ErrorKind>::Err(e),
        },
    decreases fields@, 0int,
{
    let n: usize = fields.len();
    let mut j: usize = 0;
    while j < n
        invariant
            n == fields@.len(),
            j <= n,
            spec_fields_prefix(fields@, j as int, state.opts, state.depth as int, state.limit as int) is Ok,
            dst@ == old(dst)@ + spec_fields_prefix(
                fields@,
                j as int,
                state.opts,
                state.depth as int,
                state.limit as int,
            )->Ok_0,
        decreases n - j,
    {
        if j > 0 {
            dst.push(44);
        }
        let field = &fields[j];
        escape_into(dst, &field.0);
        dst.push(58);
        match write_value(dst, &field.1, state) {
            Result::Err(e) => {
                proof {
                    lemma_fields_prefix_err(
                        fields@,
                        j + 1,
                        n as int,
                        state.opts,
                        state.depth as int,
                        state.limit as int,
                    );
                }
                return Result::Err(e);
            },
            Result::Ok(_) => {
                proof {
                    assert(dst@ =~= old(dst)@ + spec_fields_prefix(
                        fields@,
                        j + 1,
                        state.opts,
                        state.depth as int,
                        state.limit as int,
                    )->Ok_0);
                }
            },
        }
        j = j + 1;
    }
    Result::Ok(())
}

/// Renders the body of a non-empty keyed mapping, braces not included:
/// first every key is canonicalized or checked, then the pairs are emitted
/// in their emission order.
fn write_keyed_body(
    dst: &mut Vec<u8>,
    entries: &Vec<(Value, Value)>,
    state: SerializerState,
) -> (r: Result<(), ErrorKind>)
    ensures
        match r {
            Result::Ok(_) => spec_keyed_body(entries@, state.opts, state.depth as int, state.limit as int) is Ok
                && final(dst)@ == old(dst)@ + spec_keyed_body(
                entries@,
                state.opts,
                state.depth as int,
                state.limit as int,
            )->Ok_0,
            Result::Err(e) => spec_keyed_body(entries@, state.opts, state.depth as int, state.limit as int)
                == Result::<Seq<u8>, ErrorKind>::Err(e),
        },
    decreases entries@, 0int,
{
    let n: usize = entries.len();
    let nonstr = state.opts & NON_STR_KEYS != 0;
    let mut keyvec: Vec<(Vec<u8>, usize)> = Vec::new();
    let mut j: usize = 0;
    while j < n
        invariant
            n == entries@.len(),
            j <= n,
            keyvec@.len() == j,
            nonstr == opt_enabled(state.opts, NON_STR_KEYS),
            spec_mapping_keys(entries@, j as int, state.opts) is Ok,
            pairs_view(keyvec@) =~= key_positions(
                spec_mapping_keys(entries@, j as int, state.opts)->Ok_0,
            ),
        decreases n - j,
    {
        let kr = if nonstr {
            canonical_key(&entries[j].0)
        } else {
            text_key_owned(&entries[j].0)
        };
        match kr {
            Result::Err(e) => {
                proof {
                    lemma_mapping_keys_err(entries@, j + 1, n as int, state.opts);
                }
                return Result::Err(e);
            },
            Result::Ok(kb) => {
                let ghost pre = keyvec@;
                keyvec.push((kb, j));
                proof {
                    let ks_old = spec_mapping_keys(entries@, j as int, state.opts)->Ok_0;
                    let ks_new = spec_mapping_keys(entries@, j + 1, state.opts)->Ok_0;
                    lemma_mapping_keys_len(entries@, j as int, state.opts);
                    lemma_mapping_keys_len(entries@, j + 1, state.opts);
                    assert(ks_new == ks_old.push(kb@));
                    assert(pairs_view(keyvec@) =~= key_positions(ks_new)) by {
                        assert forall|i: int| 0 <= i < keyvec@.len() implies pairs_view(keyvec@)[i]
                            == key_positions(ks_new)[i] by {
                            if i < j as int {
                                assert(keyvec@[i] == pre[i]);
                                assert(pairs_view(pre)[i] == key_positions(ks_old)[i]);
                                assert(ks_new[i] == ks_old[i]);
                            } else {
                                assert(keyvec@[i] == (kb, j as usize));
                                assert(ks_new[i] == kb@);
                            }
                        }
                    }
                }
            },
        }
        j = j + 1;
    }
    let ghost ks = spec_mapping_keys(entries@, n as int, state.opts)->Ok_0;
    if state.opts & SORT_KEYS != 0 {
        sort_items(&mut keyvec);
    }
    proof {
        assert(pairs_view(keyvec@) == spec_emit_order(ks, state.opts));
    }
    let ghost spairs = spec_emit_order(ks, state.opts);
    let m: usize = keyvec.len();
    proof {
        assert(spairs.len() == m);
    }
    let mut j2: usize = 0;
    while j2 < m
        invariant
            n == entries@.len(),
            m == keyvec@.len(),
            m == spairs.len(),
            j2 <= m,
            pairs_view(keyvec@) == spairs,
            spec_mapping_keys(entries@, n as int, state.opts) == Result::<Seq<Seq<u8>>, ErrorKind>::Ok(
                ks,
            ),
            spairs == spec_emit_order(ks, state.opts),
            spec_pairs_prefix(spairs, entries@, j2 as int, state.opts, state.depth as int, state.limit as int) is Ok,
            dst@ == old(dst)@ + spec_pairs_prefix(
                spairs,
                entries@,
                j2 as int,
                state.opts,
                state.depth as int,
                state.limit as int,
            )->Ok_0,
        decreases m - j2,
    {
        if j2 > 0 {
            dst.push(44);
        }
        let pair = &keyvec[j2];
        proof {
            assert(pairs_view(keyvec@)[j2 as int] == (keyvec@[j2 as int].0@, keyvec@[j2 as int].1
                as int));
        }
        escape_into(dst, &pair.0);
        dst.push(58);
        let idx: usize = pair.1;
        if idx >= n {
            proof {
                lemma_pairs_prefix_err(
                    spairs,
                    entries@,
                    j2 + 1,
                    m as int,
                    state.opts,
                    state.depth as int,
                    state.limit as int,
                );
            }
            return Result::Err(ErrorKind::UnsupportedType);
        }
        match write_value(dst, &entries[idx].1, state) {
            Result::Err(e) => {
                proof {
                    lemma_pairs_prefix_err(
                        spairs,
                        entries@,
                        j2 + 1,
                        m as int,
                        state.opts,
                        state.depth as int,
                        state.limit as int,
                    );
                }
                return Result::Err(e);
            },
            Result::Ok(_) => {
                proof {
                    assert(dst@ =~= old(dst)@ + spec_pairs_prefix(
                        spairs,
                        entries@,
                        j2 + 1,
                        state.opts,
                        state.depth as int,
                        state.limit as int,
                    )->Ok_0);
                }
            },
        }
        j2 = j2 + 1;
    }
    Result::Ok(())
}

/// Renders one value into the output buffer. On success exactly the
/// rendered bytes are appended; on error the buffer's tail is unspecified
/// and the whole buffer is discarded by the top-level caller.
fn write_value(dst: &mut Vec<u8>, v: &Value, state: SerializerState) -> (r: Result<
    (),
    ErrorKind,
>)
    ensures
        match r {
            Result::Ok(_) => spec_render(*v, state.opts, state.depth as int, state.limit as int) is Ok && final(dst)@
                == old(dst)@ + spec_render(*v, state.opts, state.depth as int, state.limit as int)->Ok_0,
            Result::Err(e) => spec_render(*v, state.opts, state.depth as int, state.limit as int) == Result::<
                Seq<u8>,
                ErrorKind,
            >::Err(e),
        },
    decreases *v, 1int,
{
    match v {
        Value::Null => {
            push_null(dst);
            Result::Ok(())
        },
        Value::Bool(b) => {
            push_bool(dst, *b);
            Result::Ok(())
        },
        Value::Int(iv) => {
            let strict = state.opts & STRICT_INTEGER != 0;
            match iv {
                IntValue::Signed(i) => {
                    if strict && (*i > 9007199254740991i64 || *i < -9007199254740991i64) {
                        Result::Err(ErrorKind::UnsupportedType)
                    } else {
                        let b = fmt_i64(*i);
                        append_bytes(dst, &b);
                        Result::Ok(())
                    }
                },
                IntValue::Unsigned(u) => {
                    if strict && *u > 9007199254740991u64 {
                        Result::Err(ErrorKind::UnsupportedType)
                    } else {
                        let b = fmt_u64(*u);
                        append_bytes(dst, &b);
                        Result::Ok(())
                    }
                },
                IntValue::TooLarge => Result::Err(ErrorKind::UnsupportedType),
            }
        },
        Value::Float(f) => {
            if is_f64_bits_finite(f.bits) {
                append_bytes(dst, &f.dec);
            } else {
                push_null(dst);
            }
            Result::Ok(())
        },
        Value::Text(td) => match td {
            TextData::Utf8(b) => {
                escape_into(dst, b);
                Result::Ok(())
            },
            TextData::Malformed => Result::Err(ErrorKind::InvalidText),
        },
        Value::TextSubclass(td) => match td {
            TextData::Utf8(b) => {
                escape_into(dst, b);
                Result::Ok(())
            },
            TextData::Malformed => Result::Err(ErrorKind::InvalidText),
        },
        Value::Fragment(b) => {
            append_bytes(dst, b);
            Result::Ok(())
        },
        Value::Date(d) => {
            if state.opts & PASSTHROUGH_DATETIME != 0 {
                Result::Err(ErrorKind::UnsupportedType)
            } else {
                let mut tmp: Vec<u8> = Vec::new();
                write_date(&mut tmp, d);
                escape_into(dst, &tmp);
                Result::Ok(())
            }
        },
        Value::Time(t) => {
            if state.opts & PASSTHROUGH_DATETIME != 0 {
                Result::Err(ErrorKind::UnsupportedType)
            } else if t.has_offset {
                Result::Err(ErrorKind::TimeHasZoneOffset)
            } else {
                let mut tmp: Vec<u8> = Vec::new();
                write_time(&mut tmp, t);
                escape_into(dst, &tmp);
                Result::Ok(())
            }
        },
        Value::DateTime(dt) => {
            if state.opts & PASSTHROUGH_DATETIME != 0 {
                Result::Err(ErrorKind::UnsupportedType)
            } else if matches!(dt.zone, Zone::Unsupported) {
                Result::Err(ErrorKind::DatetimeUnsupported)
            } else {
                let mut tmp: Vec<u8> = Vec::new();
                write_datetime(&mut tmp, dt);
                escape_into(dst, &tmp);
                Result::Ok(())
            }
        },
        Value::Uuid(u) => {
            let mut tmp: Vec<u8> = Vec::new();
            write_uuid(&mut tmp, *u);
            escape_into(dst, &tmp);
            Result::Ok(())
        },
        Value::Enumerated(p) => write_value(dst, p, state),
        Value::Sequence(items) => {
            if state.recursion_limit() {
                return Result::Err(ErrorKind::RecursionLimitExceeded);
            }
            if items.len() == 0 {
                dst.push(91);
                dst.push(93);
                proof {
                    assert(dst@ =~= old(dst)@ + seq![91u8, 93u8]);
                }
                return Result::Ok(());
            }
            dst.push(91);
            match write_items(dst, items, state.copy_for_recursive_call()) {
                Result::Err(e) => Result::Err(e),
                Result::Ok(_) => {
                    dst.push(93);
                    proof {
                        assert(dst@ =~= old(dst)@ + spec_render(
                            *v,
                            state.opts,
                            state.depth as int,
                            state.limit as int,
                        )->Ok_0);
                    }
                    Result::Ok(())
                },
            }
        },
        Value::ImmutableSequence(items) => {
            if state.recursion_limit() {
                return Result::Err(ErrorKind::RecursionLimitExceeded);
            }
            if items.len() == 0 {
                dst.push(91);
                dst.push(93);
                proof {
                    assert(dst@ =~= old(dst)@ + seq![91u8, 93u8]);
                }
                return Result::Ok(());
            }
            dst.push(91);
            match write_items(dst, items, state.copy_for_recursive_call()) {
                Result::Err(e) => Result::Err(e),
                Result::Ok(_) => {
                    dst.push(93);
                    proof {
                        assert(dst@ =~= old(dst)@ + spec_render(
                            *v,
                            state.opts,
                            state.depth as int,
                            state.limit as int,
                        )->Ok_0);
                    }
                    Result::Ok(())
                },
            }
        },
        Value::Mapping(entries) => {
            if state.recursion_limit() {
                return Result::Err(ErrorKind::RecursionLimitExceeded);
            }
            if entries.len() == 0 {
                dst.push(123);
                dst.push(125);
                proof {
                    assert(dst@ =~= old(dst)@ + seq![123u8, 125u8]);
                }
                return Result::Ok(());
            }
            dst.push(123);
            let sortk = state.opts & SORT_KEYS != 0;
            let nonstr = state.opts & NON_STR_KEYS != 0;
            if !sortk && !nonstr {
                match write_default_entries(dst, entries, state.copy_for_recursive_call()) {
                    Result::Err(e) => Result::Err(e),
                    Result::Ok(_) => {
                        dst.push(125);
                        proof {
                            assert(dst@ =~= old(dst)@ + spec_render(
                                *v,
                                state.opts,
                                state.depth as int,
                                state.limit as int,
                            )->Ok_0);
                        }
                        Result::Ok(())
                    },
                }
            } else {
                match write_keyed_body(dst, entries, state.copy_for_recursive_call()) {
                    Result::Err(e) => Result::Err(e),
                    Result::Ok(_) => {
                        dst.push(125);
                        proof {
                            assert(dst@ =~= old(dst)@ + spec_render(
                                *v,
                                state.opts,
                                state.depth as int,
                                state.limit as int,
                            )->Ok_0);
                        }
                        Result::Ok(())
                    },
                }
            }
        },
        Value::Record(fields) => {
            if state.recursion_limit() {
                return Result::Err(ErrorKind::RecursionLimitExceeded);
            }
            if fields.len() == 0 {
                dst.push(123);
                dst.push(125);
                proof {
                    assert(dst@ =~= old(dst)@ + seq![123u8, 125u8]);
                }
                return Result::Ok(());
            }
            dst.push(123);
            match write_fields(dst, fields, state.copy_for_recursive_call()) {
                Result::Err(e) => Result::Err(e),
                Result::Ok(_) => {
                    dst.push(125);
                    proof {
                        assert(dst@ =~= old(dst)@ + spec_render(
                            *v,
                            state.opts,
                            state.depth as int,
                            state.limit as int,
                        )->Ok_0);
                    }
                    Result::Ok(())
                },
            }
        },
        Value::NumericScalar => Result::Err(ErrorKind::UnsupportedType),
        Value::NumericArray => Result::Err(ErrorKind::UnsupportedType),
        Value::Unknown => Result::Err(ErrorKind::UnsupportedType),
    }
}

/// Renders a borrowed value to UTF-8 JSON bytes under the given state. On
/// success the returned buffer is exactly what `spec_render` gives; on
/// error nothing is returned and the error kind is exactly what
/// `spec_render` gives.
pub fn render(v: &Value, state: &SerializerState) -> (r: Result<Vec<u8>, ErrorKind>)
    ensures
        match r {
            Result::Ok(out) => spec_render(*v, state.opts, state.depth as int, state.limit as int)
                == Result::<Seq<u8>, ErrorKind>::Ok(out@),
            Result::Err(e) => spec_render(*v, state.opts, state.depth as int, state.limit as int)
                == Result::<Seq<u8>, ErrorKind>::Err(e),
        },
{
    let mut dst: Vec<u8> = Vec::new();
    match write_value(&mut dst, v, *state) {
        Result::Ok(_) => {
            proof {
                assert(dst@ =~= spec_render(
                    *v,
                    state.opts,
                    state.depth as int,
                    state.limit as int,
                )->Ok_0);
            }
            Result::Ok(dst)
        },
        Result::Err(e) => Result::Err(e),
    }
}

/// An empty mapping renders to exactly `{}` whatever the options, as long
/// as the depth limit admits it.
pub proof fn lemma_empty_mapping(entries: Vec<(Value, Value)>, opts: u32, depth: int, limit: int)
    requires
        entries@.len() == 0,
        depth < limit,
    ensures
        spec_render(Value::Mapping(entries), opts, depth, limit) == Result::<
            Seq<u8>,
            ErrorKind,
        >::Ok(seq![123u8, 125u8]),
{
}

/// An empty sequence renders to exactly `[]` whatever the options, as long
/// as the depth limit admits it.
pub proof fn lemma_empty_sequence(items: Vec<Value>, opts: u32, depth: int, limit: int)
    requires
        items@.len() == 0,
        depth < limit,
    ensures
        spec_render(Value::Sequence(items), opts, depth, limit) == Result::<Seq<u8>, ErrorKind>::Ok(
            seq![91u8, 93u8],
        ),
        spec_render(Value::ImmutableSequence(items), opts, depth, limit) == Result::<
            Seq<u8>,
            ErrorKind,
        >::Ok(seq![91u8, 93u8]),
{
}

/// Whether a value is a container: one whose rendering checks the depth
/// limit before it descends.
pub open spec fn is_container(v: Value) -> bool {
    v is Mapping || v is Sequence || v is ImmutableSequence || v is Record
}

/// A container of any kind at the depth limit fails with the recursion
/// error and nothing else, whatever it holds.
pub proof fn lemma_depth_limit(v: Value, opts: u32, depth: int, limit: int)
    requires
        is_container(v),
        depth >= limit,
    ensures
        spec_render(v, opts, depth, limit) == Result::<Seq<u8>, ErrorKind>::Err(
            ErrorKind::RecursionLimitExceeded,
        ),
{
}

/// How deep a chain of one-element sequences starts at this value.
pub open spec fn seq_nest_depth(v: Value) -> nat
    decreases v,
{
    match v {
        Value::Sequence(items) => if items@.len() == 1 {
            1 + seq_nest_depth(items@[0])
        } else {
            1
        },
        _ => 0,
    }
}

/// A chain of one-element sequences nested deeper than the remaining depth
/// budget fails with the recursion error, never a crash and never partial
/// output.
pub proof fn lemma_nest_exceeds_limit(v: Value, opts: u32, depth: int, limit: int)
    requires
        v is Sequence,
        0 <= depth,
        seq_nest_depth(v) > limit - depth,
    ensures
        spec_render(v, opts, depth, limit) == Result::<Seq<u8>, ErrorKind>::Err(
            ErrorKind::RecursionLimitExceeded,
        ),
    decreases v,
{
    if depth >= limit {
    } else {
        let items = v->Sequence_0;
        assert(seq_nest_depth(v) > 1);
        assert(items@.len() == 1);
        let child = items@[0];
        assert(seq_nest_depth(child) > limit - (depth + 1));
        assert(limit - (depth + 1) >= 0);
        if !(child is Sequence) {
            assert(seq_nest_depth(child) == 0);
        }
        lemma_nest_exceeds_limit(child, opts, depth + 1, limit);
        assert(spec_items_prefix(items@, 1, opts, depth + 1, limit) == Result::<
            Seq<u8>,
            ErrorKind,
        >::Err(ErrorKind::RecursionLimitExceeded)) by {
            reveal_with_fuel(spec_items_prefix, 3);
        }
    }
}

/// Under the sort option the emission order of a keyed mapping has its
/// canonical keys in non-decreasing byte-wise lexicographic order, and the
/// sort is stable: entries whose canonical keys collide keep their
/// first-seen order.
pub proof fn lemma_emit_order_sorted(ks: Seq<Seq<u8>>, opts: u32)
    requires
        opt_enabled(opts, SORT_KEYS),
    ensures
        crate::sort::sorted_by_key(spec_emit_order(ks, opts)),
        crate::sort::stable_by_position(spec_emit_order(ks, opts)),
        spec_emit_order(ks, opts).len() == ks.len(),
{
    crate::sort::lemma_sort_pairs_sorted(key_positions(ks));
    assert(crate::sort::positions_increasing(key_positions(ks)));
    crate::sort::lemma_sort_pairs_stable(key_positions(ks));
}

/// Emits the constant output of an empty mapping.
pub struct ZeroDictSerializer {}

impl ZeroDictSerializer {
    pub fn new() -> (s: ZeroDictSerializer) {
        ZeroDictSerializer {  }
    }

    /// The two bytes `{}`.
    pub fn bytes(&self) -> (r: Vec<u8>)
        ensures
            r@ == seq![123u8, 125u8],
    {
        let mut out: Vec<u8> = Vec::new();
        out.push(123);
        out.push(125);
        proof {
            assert(out@ =~= seq![123u8, 125u8]);
        }
        out
    }
}

} // verus!
