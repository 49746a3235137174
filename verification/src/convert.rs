//! The value converter: a pure mapping from a wire-typed column value to a
//! structured value, recursive for nested collections. A value that cannot
//! be decoded becomes an error value scoped to its own column; it never
//! aborts the row or the stream.
use vstd::prelude::*;
use vstd::string::StringExecFns;
use vstd::utf8::valid_utf8;
use vstd::utf8::decode_utf8;
use crate::codec::be_val;
use crate::codec::twos_comp;
use crate::codec::pow256;
use crate::codec::dec_str;
use crate::codec::int_str;
use crate::codec::be_range_u64;
use crate::codec::push_dec_u64;
use crate::codec::lemma_be_val_bound;
use crate::codec::widen_f32_bits;
use crate::codec::widen_f32;
use crate::render::uuid_str;
use crate::render::inet4_str;
use crate::render::inet6_str;
use crate::render::date_str;
use crate::render::time_str;
use crate::render::decimal_str;
use crate::digits::render_varint;
use crate::digits::render_decimal_bytes;
use crate::render::render_uuid;
use crate::render::render_inet4;
use crate::render::render_inet6;
use crate::render::render_date;
use crate::render::render_time;
use crate::render::NANOS_PER_DAY;
use crate::value::ErrorInfo;
use crate::value::MapEntry;
use crate::value::StructuredValue;
use crate::value::ValueModel;
use crate::value::WireModel;
use crate::value::WireValue;
use crate::value::wire_view;
use crate::value::wire_view_seq;
use crate::value::wire_view_entries;
use crate::value::value_view;
use crate::value::value_view_seq;
use crate::value::value_view_entries;
use crate::value::TAG_ASCII;
use crate::value::TAG_BIGINT;
use crate::value::TAG_BLOB;
use crate::value::TAG_BOOLEAN;
use crate::value::TAG_COUNTER;
use crate::value::TAG_DECIMAL;
use crate::value::TAG_DOUBLE;
use crate::value::TAG_FLOAT;
use crate::value::TAG_INT;
use crate::value::TAG_TEXT;
use crate::value::TAG_TIMESTAMP;
use crate::value::TAG_UUID;
use crate::value::TAG_VARCHAR;
use crate::value::TAG_VARINT;
use crate::value::TAG_TIMEUUID;
use crate::value::TAG_INET;
use crate::value::TAG_DATE;
use crate::value::TAG_TIME;
use crate::value::TAG_SMALL_INT;
use crate::value::TAG_TINY_INT;
use crate::value::TAG_DURATION;

verus! {

/// Relies on `String::from_utf8`: it succeeds exactly on byte sequences
/// that are valid UTF-8, and decodes them to the string's characters.
#[verifier::external_body]
fn utf8_to_string(b: &Vec<u8>) -> (r: Option<String>)
    ensures
        r is Some <==> valid_utf8(b@),
        r matches Some(s) ==> s@ == decode_utf8(b@),
{
    String::from_utf8(b.clone()).ok()
}

/// The tags whose values are character data.
pub open spec fn textual_tag(tag: u16) -> bool {
    tag == TAG_ASCII || tag == TAG_TEXT || tag == TAG_VARCHAR
}

/// Every byte within the 7-bit range.
pub open spec fn ascii_ok(b: Seq<u8>) -> bool {
    forall|i: int| 0 <= i < b.len() ==> b[i] < 128
}

/// Whether character data under the given tag decodes: an `ascii` column
/// must hold 7-bit bytes, the other textual tags any valid UTF-8.
pub open spec fn text_ok(tag: u16, b: Seq<u8>) -> bool {
    if tag == TAG_ASCII {
        ascii_ok(b) && valid_utf8(b)
    } else {
        valid_utf8(b)
    }
}

/// The error value standing in for a column the row could not supply.
pub open spec fn missing_err() -> ValueModel {
    ValueModel::ErrorValue("Column read error"@, "row assembly"@)
}

/// The error value of a column whose bytes could not be decoded.
pub open spec fn conv_err() -> ValueModel {
    ValueModel::ErrorValue("Conversion error"@, "value conversion"@)
}

/// The error value of a column whose wire type has no mapping rule.
pub open spec fn unsupported_err(tag: u16) -> ValueModel {
    ValueModel::ErrorValue("Unsupported type"@, "wire type "@ + dec_str(tag as nat))
}

/// The structured value of one scalar column: dispatch on the wire-type
/// tag over the canonical byte encoding.
pub open spec fn conv_scalar(tag: u16, b: Seq<u8>) -> ValueModel {
    if textual_tag(tag) {
        if text_ok(tag, b) {
            ValueModel::Text(decode_utf8(b))
        } else {
            conv_err()
        }
    } else if tag == TAG_BIGINT || tag == TAG_COUNTER {
        if b.len() == 8 {
            ValueModel::Int64(twos_comp(b))
        } else {
            conv_err()
        }
    } else if tag == TAG_INT {
        if b.len() == 4 {
            ValueModel::Int64(twos_comp(b))
        } else {
            conv_err()
        }
    } else if tag == TAG_SMALL_INT {
        if b.len() == 2 {
            ValueModel::Int64(twos_comp(b))
        } else {
            conv_err()
        }
    } else if tag == TAG_TINY_INT {
        if b.len() == 1 {
            ValueModel::Int64(twos_comp(b))
        } else {
            conv_err()
        }
    } else if tag == TAG_VARINT {
        if b.len() >= 1 {
            ValueModel::Text(int_str(twos_comp(b)))
        } else {
            conv_err()
        }
    } else if tag == TAG_BOOLEAN {
        if b.len() == 1 {
            ValueModel::Boolean(b[0] != 0)
        } else {
            conv_err()
        }
    } else if tag == TAG_BLOB {
        ValueModel::Bytes(b)
    } else if tag == TAG_DOUBLE {
        if b.len() == 8 {
            ValueModel::Float64Bits(be_val(b) as u64)
        } else {
            conv_err()
        }
    } else if tag == TAG_FLOAT {
        if b.len() == 4 {
            ValueModel::Float64Bits(widen_f32_bits(be_val(b)) as u64)
        } else {
            conv_err()
        }
    } else if tag == TAG_TIMESTAMP {
        if b.len() == 8 {
            ValueModel::Timestamp(twos_comp(b))
        } else {
            conv_err()
        }
    } else if tag == TAG_DURATION {
        if b.len() == 8 {
            ValueModel::Duration(twos_comp(b))
        } else {
            conv_err()
        }
    } else if tag == TAG_UUID || tag == TAG_TIMEUUID {
        if b.len() == 16 {
            ValueModel::Text(uuid_str(b))
        } else {
            conv_err()
        }
    } else if tag == TAG_INET {
        if b.len() == 4 {
            ValueModel::Text(inet4_str(b))
        } else if b.len() == 16 {
            ValueModel::Text(inet6_str(b))
        } else {
            conv_err()
        }
    } else if tag == TAG_DATE {
        if b.len() == 4 {
            ValueModel::Text(date_str(be_val(b)))
        } else {
            conv_err()
        }
    } else if tag == TAG_TIME {
        if b.len() == 8 && 0 <= twos_comp(b) < NANOS_PER_DAY {
            ValueModel::Text(time_str(twos_comp(b) as nat))
        } else {
            conv_err()
        }
    } else if tag == TAG_DECIMAL {
        if b.len() >= 5 {
            ValueModel::Text(
                decimal_str(
                    twos_comp(b.subrange(4, b.len() as int)),
                    twos_comp(b.subrange(0, 4)),
                ),
            )
        } else {
            conv_err()
        }
    } else {
        unsupported_err(tag)
    }
}

/// The structured value of one wire value: scalars by tag dispatch, a null
/// column to `Null`, collections element by element, map entries with the
/// key coerced to its string form.
pub open spec fn convert_model(m: WireModel) -> ValueModel
    decreases m,
{
    match m {
        WireModel::Scalar(tag, ob) => match ob {
            Option::Some(b) => conv_scalar(tag, b),
            Option::None => ValueModel::Null,
        },
        WireModel::Collection(items) => ValueModel::List(convert_model_seq(items)),
        WireModel::MapEntries(entries) => ValueModel::MapVal(convert_model_entries(entries)),
        WireModel::Unreadable => missing_err(),
    }
}

pub open spec fn convert_model_seq(s: Seq<WireModel>) -> Seq<ValueModel>
    decreases s,
{
    if s.len() == 0 {
        Seq::empty()
    } else {
        seq![convert_model(s[0])] + convert_model_seq(s.subrange(1, s.len() as int))
    }
}

pub open spec fn convert_model_entries(s: Seq<(WireModel, WireModel)>) -> Seq<
    (Seq<char>, ValueModel),
>
    decreases s,
{
    if s.len() == 0 {
        Seq::empty()
    } else {
        seq![(key_chars(s[0].0), convert_model(s[0].1))] + convert_model_entries(
            s.subrange(1, s.len() as int),
        )
    }
}

/// A map key coerced to its string form: character data decodes, anything
/// else falls back to a fixed marker. The coercion is deliberately lossy
/// for non-textual keys.
pub open spec fn key_chars(m: WireModel) -> Seq<char> {
    match m {
        WireModel::Scalar(tag, ob) => match ob {
            Option::Some(b) => if textual_tag(tag) && text_ok(tag, b) {
                decode_utf8(b)
            } else {
                "<error>"@
            },
            Option::None => "<error>"@,
        },
        _ => "<error>"@,
    }
}

pub proof fn lemma_wire_view_seq_index(s: Seq<WireValue>, i: int)
    requires
        0 <= i < s.len(),
    ensures
        wire_view_seq(s).len() == s.len(),
        wire_view_seq(s)[i] == wire_view(s[i]),
    decreases s.len(),
{
    if i == 0 {
        lemma_wire_view_seq_len(s.subrange(1, s.len() as int));
    } else {
        lemma_wire_view_seq_index(s.subrange(1, s.len() as int), i - 1);
    }
}

proof fn lemma_wire_view_seq_len(s: Seq<WireValue>)
    ensures
        wire_view_seq(s).len() == s.len(),
    decreases s.len(),
{
    if s.len() > 0 {
        lemma_wire_view_seq_len(s.subrange(1, s.len() as int));
    }
}

proof fn lemma_wire_view_entries_index(s: Seq<(WireValue, WireValue)>, i: int)
    requires
        0 <= i < s.len(),
    ensures
        wire_view_entries(s).len() == s.len(),
        wire_view_entries(s)[i] == (wire_view(s[i].0), wire_view(s[i].1)),
    decreases s.len(),
{
    if i == 0 {
        lemma_wire_view_entries_len(s.subrange(1, s.len() as int));
    } else {
        lemma_wire_view_entries_index(s.subrange(1, s.len() as int), i - 1);
    }
}

proof fn lemma_wire_view_entries_len(s: Seq<(WireValue, WireValue)>)
    ensures
        wire_view_entries(s).len() == s.len(),
    decreases s.len(),
{
    if s.len() > 0 {
        lemma_wire_view_entries_len(s.subrange(1, s.len() as int));
    }
}

proof fn lemma_convert_model_seq_index(s: Seq<WireModel>, i: int)
    requires
        0 <= i < s.len(),
    ensures
        convert_model_seq(s).len() == s.len(),
        convert_model_seq(s)[i] == convert_model(s[i]),
    decreases s.len(),
{
    if i == 0 {
        lemma_convert_model_seq_len(s.subrange(1, s.len() as int));
    } else {
        lemma_convert_model_seq_index(s.subrange(1, s.len() as int), i - 1);
    }
}

proof fn lemma_convert_model_seq_len(s: Seq<WireModel>)
    ensures
        convert_model_seq(s).len() == s.len(),
    decreases s.len(),
{
    if s.len() > 0 {
        lemma_convert_model_seq_len(s.subrange(1, s.len() as int));
    }
}

proof fn lemma_convert_model_entries_index(s: Seq<(WireModel, WireModel)>, i: int)
    requires
        0 <= i < s.len(),
    ensures
        convert_model_entries(s).len() == s.len(),
        convert_model_entries(s)[i] == (key_chars(s[i].0), convert_model(s[i].1)),
    decreases s.len(),
{
    if i == 0 {
        lemma_convert_model_entries_len(s.subrange(1, s.len() as int));
    } else {
        lemma_convert_model_entries_index(s.subrange(1, s.len() as int), i - 1);
    }
}

proof fn lemma_convert_model_entries_len(s: Seq<(WireModel, WireModel)>)
    ensures
        convert_model_entries(s).len() == s.len(),
    decreases s.len(),
{
    if s.len() > 0 {
        lemma_convert_model_entries_len(s.subrange(1, s.len() as int));
    }
}

proof fn lemma_value_view_entries_index(s: Seq<MapEntry>, i: int)
    requires
        0 <= i < s.len(),
    ensures
        value_view_entries(s).len() == s.len(),
        value_view_entries(s)[i] == (s[i].key@, value_view(s[i].value)),
    decreases s.len(),
{
    if i == 0 {
        lemma_value_view_entries_len(s.subrange(1, s.len() as int));
    } else {
        lemma_value_view_entries_index(s.subrange(1, s.len() as int), i - 1);
    }
}

proof fn lemma_value_view_entries_len(s: Seq<MapEntry>)
    ensures
        value_view_entries(s).len() == s.len(),
    decreases s.len(),
{
    if s.len() > 0 {
        lemma_value_view_entries_len(s.subrange(1, s.len() as int));
    }
}

/// Builds the error value standing in for a column the row could not
/// supply.
pub fn missing_error() -> (r: StructuredValue)
    ensures
        value_view(r) == missing_err(),
{
    StructuredValue::ErrorValue(
        ErrorInfo { message: "Column read error".to_owned(), context: "row assembly".to_owned() },
    )
}

/// Builds the error value of a column whose bytes could not be decoded.
fn conversion_error() -> (r: StructuredValue)
    ensures
        value_view(r) == conv_err(),
{
    StructuredValue::ErrorValue(
        ErrorInfo {
            message: "Conversion error".to_owned(),
            context: "value conversion".to_owned(),
        },
    )
}

/// Builds the error value of an unmapped wire type, naming the tag.
fn unsupported_error(tag: u16) -> (r: StructuredValue)
    ensures
        value_view(r) == unsupported_err(tag),
{
    let mut ctx: String = "wire type ".to_owned();
    push_dec_u64(&mut ctx, tag as u64);
    StructuredValue::ErrorValue(
        ErrorInfo { message: "Unsupported type".to_owned(), context: ctx },
    )
}

/// Decodes character data under a textual tag; `None` when the bytes do
/// not satisfy the tag's encoding.
fn decode_text(tag: u16, b: &Vec<u8>) -> (r: Option<String>)
    requires
        textual_tag(tag),
    ensures
        r is Some <==> text_ok(tag, b@),
        r matches Some(s) ==> s@ == decode_utf8(b@),
{
    if tag == TAG_ASCII {
        let mut i: usize = 0;
        while i < b.len()
            invariant
                tag == TAG_ASCII,
                i <= b@.len(),
                forall|j: int| 0 <= j < i ==> b@[j] < 128,
            decreases b@.len() - i,
        {
            if b[i] >= 128 {
                proof {
                    assert(!ascii_ok(b@)) by {
                        assert(0 <= i < b@.len() && b@[i as int] >= 128);
                    }
                }
                return None;
            }
            i = i + 1;
        }
        assert(ascii_ok(b@));
    }
    utf8_to_string(b)
}

/// Reads a big-endian two's complement integer of one to eight bytes from
/// `v[start .. end]`, widened to `i64`.
fn decode_signed_range(v: &Vec<u8>, start: usize, end: usize) -> (r: i64)
    requires
        start <= end <= v@.len(),
        1 <= end - start <= 8,
    ensures
        r as int == twos_comp(v@.subrange(start as int, end as int)),
{
    proof {
        assert(pow256(1) == 0x100 && pow256(2) == 0x10000 && pow256(3) == 0x1000000 && pow256(4)
            == 0x100000000 && pow256(5) == 0x10000000000 && pow256(6) == 0x1000000000000 && pow256(
            7,
        ) == 0x100000000000000 && pow256(8) == 0x10000000000000000) by {
            reveal_with_fuel(pow256, 9);
        }
        lemma_be_val_bound(v@.subrange(start as int, end as int));
    }
    let n: usize = end - start;
    let u = be_range_u64(v, start, end);
    if n == 8 {
        if u >= 0x8000000000000000 {
            i64::MIN + ((u - 0x8000000000000000) as i64)
        } else {
            u as i64
        }
    } else {
        let p: i64 = if n == 1 {
            0x100
        } else if n == 2 {
            0x10000
        } else if n == 3 {
            0x1000000
        } else if n == 4 {
            0x100000000
        } else if n == 5 {
            0x10000000000
        } else if n == 6 {
            0x1000000000000
        } else {
            0x100000000000000
        };
        if u as i64 >= p / 2 {
            (u as i64) - p
        } else {
            u as i64
        }
    }
}

/// Converts one scalar column value from its canonical byte encoding.
fn convert_scalar(tag: u16, b: &Vec<u8>) -> (r: StructuredValue)
    ensures
        value_view(r) == conv_scalar(tag, b@),
{
    proof {
        assert(pow256(4) == 0x100000000 && pow256(8) == 0x10000000000000000) by {
            reveal_with_fuel(pow256, 9);
        }
        assert(b@.subrange(0, b@.len() as int) =~= b@);
    }
    if tag == TAG_ASCII || tag == TAG_TEXT || tag == TAG_VARCHAR {
        match decode_text(tag, b) {
            Some(s) => StructuredValue::Text(s),
            None => conversion_error(),
        }
    } else if tag == TAG_BIGINT || tag == TAG_COUNTER {
        if b.len() == 8 {
            StructuredValue::Int64(decode_signed_range(b, 0, 8))
        } else {
            conversion_error()
        }
    } else if tag == TAG_INT {
        if b.len() == 4 {
            StructuredValue::Int64(decode_signed_range(b, 0, 4))
        } else {
            conversion_error()
        }
    } else if tag == TAG_SMALL_INT {
        if b.len() == 2 {
            StructuredValue::Int64(decode_signed_range(b, 0, 2))
        } else {
            conversion_error()
        }
    } else if tag == TAG_TINY_INT {
        if b.len() == 1 {
            StructuredValue::Int64(decode_signed_range(b, 0, 1))
        } else {
            conversion_error()
        }
    } else if tag == TAG_VARINT {
        if b.len() >= 1 {
            StructuredValue::Text(render_varint(b))
        } else {
            conversion_error()
        }
    } else if tag == TAG_BOOLEAN {
        if b.len() == 1 {
            StructuredValue::Boolean(b[0] != 0)
        } else {
            conversion_error()
        }
    } else if tag == TAG_BLOB {
        StructuredValue::Bytes(b.clone())
    } else if tag == TAG_DOUBLE {
        if b.len() == 8 {
            proof {
                lemma_be_val_bound(b@.subrange(0, 8));
            }
            StructuredValue::Float64Bits(be_range_u64(b, 0, 8))
        } else {
            conversion_error()
        }
    } else if tag == TAG_FLOAT {
        if b.len() == 4 {
            proof {
                lemma_be_val_bound(b@.subrange(0, 4));
            }
            let u = be_range_u64(b, 0, 4);
            StructuredValue::Float64Bits(widen_f32(u as u32))
        } else {
            conversion_error()
        }
    } else if tag == TAG_TIMESTAMP {
        if b.len() == 8 {
            StructuredValue::Timestamp(decode_signed_range(b, 0, 8))
        } else {
            conversion_error()
        }
    } else if tag == TAG_DURATION {
        if b.len() == 8 {
            StructuredValue::Duration(decode_signed_range(b, 0, 8))
        } else {
            conversion_error()
        }
    } else if tag == TAG_UUID || tag == TAG_TIMEUUID {
        if b.len() == 16 {
            StructuredValue::Text(render_uuid(b))
        } else {
            conversion_error()
        }
    } else if tag == TAG_INET {
        if b.len() == 4 {
            StructuredValue::Text(render_inet4(b))
        } else if b.len() == 16 {
            StructuredValue::Text(render_inet6(b))
        } else {
            conversion_error()
        }
    } else if tag == TAG_DATE {
        if b.len() == 4 {
            proof {
                lemma_be_val_bound(b@.subrange(0, 4));
            }
            let u = be_range_u64(b, 0, 4);
            StructuredValue::Text(render_date(u as u32))
        } else {
            conversion_error()
        }
    } else if tag == TAG_TIME {
        if b.len() == 8 {
            let t = decode_signed_range(b, 0, 8);
            if 0 <= t && t < NANOS_PER_DAY as i64 {
                StructuredValue::Text(render_time(t as u64))
            } else {
                conversion_error()
            }
        } else {
            conversion_error()
        }
    } else if tag == TAG_DECIMAL {
        if b.len() >= 5 {
            let scale = decode_signed_range(b, 0, 4);
            StructuredValue::Text(render_decimal_bytes(b, scale))
        } else {
            conversion_error()
        }
    } else {
        unsupported_error(tag)
    }
}

/// A map key coerced to its string form.
fn key_string(w: &WireValue) -> (r: String)
    ensures
        r@ == key_chars(wire_view(*w)),
{
    proof {
        reveal_strlit("<error>");
    }
    match w {
        WireValue::Scalar(tag, ob) => match ob {
            Some(b) => {
                if *tag == TAG_ASCII || *tag == TAG_TEXT || *tag == TAG_VARCHAR {
                    match decode_text(*tag, b) {
                        Some(s) => s,
                        None => "<error>".to_owned(),
                    }
                } else {
                    "<error>".to_owned()
                }
            },
            None => "<error>".to_owned(),
        },
        _ => "<error>".to_owned(),
    }
}

/// Converts one wire value to its structured value. Pure: the result is a
/// function of the wire value alone, so converting twice gives equal
/// results. A scalar that cannot be decoded, or whose wire type has no
/// mapping rule, becomes an error value for that column alone.
#[verifier::loop_isolation(false)]
pub fn convert_value(w: &WireValue) -> (r: StructuredValue)
    ensures
        value_view(r) == convert_model(wire_view(*w)),
    decreases *w,
{
    match w {
        WireValue::Scalar(tag, ob) => match ob {
            Some(b) => convert_scalar(*tag, b),
            None => StructuredValue::Null,
        },
        WireValue::Collection(items) => {
            let mut out: Vec<StructuredValue> = Vec::new();
            let mut i: usize = 0;
            while i < items.len()
                invariant
                    i <= items@.len(),
                    out@.len() == i,
                    forall|j: int|
                        0 <= j < i ==> value_view(out@[j]) == convert_model(wire_view(items@[j])),
                decreases items@.len() - i,
            {
                proof {
                    assert(decreases_to!(*w => *items));
                    assert(decreases_to!(*items => items@));
                    assert(decreases_to!(items@ => items@[i as int]));
                }
                let c = convert_value(&items[i]);
                out.push(c);
                i = i + 1;
            }
            proof {
                let ws = wire_view_seq(items@);
                lemma_wire_view_seq_len(items@);
                lemma_convert_model_seq_len(ws);
                assert forall|j: int|
                    0 <= j < out@.len() implies value_view_seq(out@)[j] == convert_model_seq(ws)[j]
                by {
                    crate::value::lemma_value_view_seq_index(out@, j);
                    lemma_wire_view_seq_index(items@, j);
                    lemma_convert_model_seq_index(ws, j);
                }
                crate::value::lemma_value_view_seq_len(out@);
                assert(value_view_seq(out@) =~= convert_model_seq(ws));
            }
            StructuredValue::List(out)
        },
        WireValue::Unreadable => missing_error(),
        WireValue::MapEntries(entries) => {
            let mut out: Vec<MapEntry> = Vec::new();
            let mut i: usize = 0;
            while i < entries.len()
                invariant
                    i <= entries@.len(),
                    out@.len() == i,
                    forall|j: int|
                        0 <= j < i ==> (out@[j].key@ == key_chars(wire_view(entries@[j].0))
                            && value_view(out@[j].value) == convert_model(
                            wire_view(entries@[j].1),
                        )),
                decreases entries@.len() - i,
            {
                proof {
                    assert(decreases_to!(*w => *entries));
                    assert(decreases_to!(*entries => entries@));
                    assert(decreases_to!(entries@ => entries@[i as int]));
                    assert(decreases_to!(entries@[i as int] => entries@[i as int].1));
                }
                let k = key_string(&entries[i].0);
                let c = convert_value(&entries[i].1);
                out.push(MapEntry { key: k, value: c });
                i = i + 1;
            }
            proof {
                let ws = wire_view_entries(entries@);
                lemma_wire_view_entries_len(entries@);
                lemma_convert_model_entries_len(ws);
                assert forall|j: int|
                    0 <= j < out@.len() implies value_view_entries(out@)[j]
                    == convert_model_entries(ws)[j] by {
                    lemma_value_view_entries_index(out@, j);
                    lemma_wire_view_entries_index(entries@, j);
                    lemma_convert_model_entries_index(ws, j);
                }
                lemma_value_view_entries_len(out@);
                assert(value_view_entries(out@) =~= convert_model_entries(ws));
            }
            StructuredValue::MapVal(out)
        },
    }
}

} // verus!
