use cassandra_query::convert::convert_value;
use cassandra_query::value::ErrorInfo;
use cassandra_query::value::MapEntry;
use cassandra_query::value::StructuredValue;
use cassandra_query::value::WireValue;
use cassandra_query::value::TAG_ASCII;
use cassandra_query::value::TAG_BIGINT;
use cassandra_query::value::TAG_BLOB;
use cassandra_query::value::TAG_BOOLEAN;
use cassandra_query::value::TAG_COUNTER;
use cassandra_query::value::TAG_DATE;
use cassandra_query::value::TAG_DECIMAL;
use cassandra_query::value::TAG_DOUBLE;
use cassandra_query::value::TAG_DURATION;
use cassandra_query::value::TAG_FLOAT;
use cassandra_query::value::TAG_INET;
use cassandra_query::value::TAG_INT;
use cassandra_query::value::TAG_SMALL_INT;
use cassandra_query::value::TAG_TEXT;
use cassandra_query::value::TAG_TIME;
use cassandra_query::value::TAG_TIMESTAMP;
use cassandra_query::value::TAG_TIMEUUID;
use cassandra_query::value::TAG_TINY_INT;
use cassandra_query::value::TAG_UUID;
use cassandra_query::value::TAG_VARCHAR;
use cassandra_query::value::TAG_VARINT;

fn scalar(tag: u16, bytes: &[u8]) -> WireValue {
    WireValue::Scalar(tag, Some(bytes.to_vec()))
}

fn text_value(s: &str) -> WireValue {
    scalar(TAG_TEXT, s.as_bytes())
}

#[test]
fn int_negative_five_in_four_bytes() {
    let v = convert_value(&scalar(TAG_INT, &[0xFF, 0xFF, 0xFF, 0xFB]));
    assert!(v == StructuredValue::Int64(-5));
}

#[test]
fn bigint_and_counter_eight_bytes() {
    let one = [0u8, 0, 0, 0, 0, 0, 0, 1];
    assert!(convert_value(&scalar(TAG_BIGINT, &one)) == StructuredValue::Int64(1));
    assert!(convert_value(&scalar(TAG_COUNTER, &one)) == StructuredValue::Int64(1));
    let min = [0x80u8, 0, 0, 0, 0, 0, 0, 0];
    assert!(convert_value(&scalar(TAG_BIGINT, &min)) == StructuredValue::Int64(i64::MIN));
}

#[test]
fn small_and_tiny_ints() {
    assert!(convert_value(&scalar(TAG_SMALL_INT, &[0xFF, 0xFE])) == StructuredValue::Int64(-2));
    assert!(convert_value(&scalar(TAG_TINY_INT, &[7])) == StructuredValue::Int64(7));
    assert!(convert_value(&scalar(TAG_TINY_INT, &[0x80])) == StructuredValue::Int64(-128));
}

#[test]
fn varint_textual_forms() {
    // a variant-length integer becomes its textual numeric representation
    assert!(convert_value(&scalar(TAG_VARINT, &[0x01, 0x2C])) == StructuredValue::Text("300".to_string()));
    assert!(convert_value(&scalar(TAG_VARINT, &[0xFF])) == StructuredValue::Text("-1".to_string()));
    assert!(convert_value(&scalar(TAG_VARINT, &[0x00])) == StructuredValue::Text("0".to_string()));
    assert!(convert_value(&scalar(TAG_VARINT, &[0x00, 0x00])) == StructuredValue::Text("0".to_string()));
    // wider than any machine word: nine bytes
    let wide = [1u8, 0, 0, 0, 0, 0, 0, 0, 0];
    assert!(convert_value(&scalar(TAG_VARINT, &wide)) == StructuredValue::Text("18446744073709551616".to_string()));
    let wide_neg = [0xFFu8, 0, 0, 0, 0, 0, 0, 0, 0];
    assert!(convert_value(&scalar(TAG_VARINT, &wide_neg)) == StructuredValue::Text("-18446744073709551616".to_string()));
}

#[test]
fn booleans() {
    assert!(convert_value(&scalar(TAG_BOOLEAN, &[1])) == StructuredValue::Boolean(true));
    assert!(convert_value(&scalar(TAG_BOOLEAN, &[0])) == StructuredValue::Boolean(false));
    assert!(convert_value(&scalar(TAG_BOOLEAN, &[7])) == StructuredValue::Boolean(true));
}

#[test]
fn text_ascii_varchar() {
    assert!(convert_value(&scalar(TAG_ASCII, b"hello")) == StructuredValue::Text("hello".to_string()));
    assert!(convert_value(&text_value("h\u{e9}llo")) == StructuredValue::Text("h\u{e9}llo".to_string()));
    assert!(convert_value(&scalar(TAG_VARCHAR, b"rows")) == StructuredValue::Text("rows".to_string()));
    // a non-ASCII byte under the ascii tag is refused
    match convert_value(&scalar(TAG_ASCII, &[0x68, 0xFF])) {
        StructuredValue::ErrorValue(e) => assert!(e.message == "Conversion error"),
        _ => panic!("expected an error value"),
    }
    // invalid UTF-8 under the text tag is refused
    match convert_value(&scalar(TAG_TEXT, &[0xFF])) {
        StructuredValue::ErrorValue(e) => assert!(e.context == "value conversion"),
        _ => panic!("expected an error value"),
    }
}

#[test]
fn blob_keeps_bytes() {
    assert!(convert_value(&scalar(TAG_BLOB, &[1, 2, 3])) == StructuredValue::Bytes(vec![1, 2, 3]));
}

#[test]
fn timestamp_epoch_zero() {
    let v = convert_value(&scalar(TAG_TIMESTAMP, &[0, 0, 0, 0, 0, 0, 0, 0]));
    assert!(v == StructuredValue::Timestamp(0));
    let ms: i64 = 1700000000000;
    let v2 = convert_value(&scalar(TAG_TIMESTAMP, &ms.to_be_bytes()));
    assert!(v2 == StructuredValue::Timestamp(ms));
}

#[test]
fn duration_nanoseconds() {
    let ns: i64 = 1_000_000_000;
    let v = convert_value(&scalar(TAG_DURATION, &ns.to_be_bytes()));
    assert!(v == StructuredValue::Duration(ns));
}

#[test]
fn double_keeps_exact_bits() {
    for x in [0.0f64, 1.5, -2.75, 0.1, f64::INFINITY, f64::MIN_POSITIVE] {
        let v = convert_value(&scalar(TAG_DOUBLE, &x.to_bits().to_be_bytes()));
        assert!(v == StructuredValue::Float64Bits(x.to_bits()));
    }
}

#[test]
fn float_widens_exactly_as_a_cast_would() {
    let samples = [
        0.0f32,
        -0.0,
        1.5,
        -2.75,
        0.1,
        f32::INFINITY,
        f32::NEG_INFINITY,
        f32::MIN_POSITIVE,
        f32::from_bits(1),          // smallest subnormal
        f32::from_bits(0x0000_7FFF), // another subnormal
        f32::MAX,
    ];
    for x in samples {
        let v = convert_value(&scalar(TAG_FLOAT, &x.to_bits().to_be_bytes()));
        assert!(v == StructuredValue::Float64Bits((x as f64).to_bits()));
    }
}

#[test]
fn uuid_hyphenated_lower_case() {
    let b: [u8; 16] = [
        0x00, 0x11, 0x22, 0x33, 0x44, 0x55, 0x66, 0x77, 0x88, 0x99, 0xAA, 0xBB, 0xCC, 0xDD,
        0xEE, 0xFF,
    ];
    assert!(convert_value(&scalar(TAG_UUID, &b)) == StructuredValue::Text("00112233-4455-6677-8899-aabbccddeeff".to_string()));
    assert!(convert_value(&scalar(TAG_TIMEUUID, &b)) == StructuredValue::Text("00112233-4455-6677-8899-aabbccddeeff".to_string()));
}

#[test]
fn inet_addresses() {
    assert!(convert_value(&scalar(TAG_INET, &[127, 0, 0, 1])) == StructuredValue::Text("127.0.0.1".to_string()));
    let mut v6 = [0u8; 16];
    v6[15] = 1;
    assert!(convert_value(&scalar(TAG_INET, &v6)) == StructuredValue::Text("0:0:0:0:0:0:0:1".to_string()));
    let v6b: [u8; 16] = [
        0x20, 0x01, 0x0d, 0xb8, 0, 0, 0, 0, 0, 0, 0, 0, 0, 0, 0x12, 0x34,
    ];
    assert!(convert_value(&scalar(TAG_INET, &v6b)) == StructuredValue::Text("2001:db8:0:0:0:0:0:1234".to_string()));
}

#[test]
fn date_day_counts() {
    // the epoch sits at the centre of the unsigned range
    let epoch: u32 = 1 << 31;
    let cases = [
        (epoch, "1970-01-01"),
        (epoch - 1, "1969-12-31"),
        (epoch + 10957, "2000-01-01"),
        (epoch + 11016, "2000-02-29"),
        (epoch + 11017, "2000-03-01"),
    ];
    for (u, expect) in cases {
        let v = convert_value(&scalar(TAG_DATE, &u.to_be_bytes()));
        assert!(v == StructuredValue::Text(expect.to_string()));
    }
}

#[test]
fn time_of_day() {
    let ns: i64 = ((1 * 3600 + 2 * 60 + 3) * 1_000_000_000) + 4;
    let v = convert_value(&scalar(TAG_TIME, &ns.to_be_bytes()));
    assert!(v == StructuredValue::Text("01:02:03.000000004".to_string()));
    // a value past the end of the day is refused
    let over: i64 = 86_400_000_000_000;
    match convert_value(&scalar(TAG_TIME, &over.to_be_bytes())) {
        StructuredValue::ErrorValue(e) => assert!(e.message == "Conversion error"),
        _ => panic!("expected an error value"),
    }
}

#[test]
fn decimal_textual_forms() {
    // four bytes of scale, then the unscaled big-endian integer
    let cases: [(&[u8], &str); 8] = [
        (&[0, 0, 0, 2, 0x01, 0x3A], "3.14"),
        (&[0, 0, 0, 2, 0xFB], "-0.05"),
        (&[0xFF, 0xFF, 0xFF, 0xFE, 0x0C], "1200"),
        (&[0, 0, 0, 0, 0xF9], "-7"),
        (&[0, 0, 0, 5, 0x01, 0x3A], "0.00314"),
        (&[0, 0, 0, 25, 0x05], "0.0000000000000000000000005"),
        (&[0, 0, 0, 0, 0x01, 0, 0, 0, 0, 0, 0, 0, 0], "18446744073709551616"),
        (&[0, 0, 0, 2, 0x01, 0, 0, 0, 0, 0, 0, 0, 0], "184467440737095516.16"),
    ];
    for (bytes, expect) in cases {
        let v = convert_value(&scalar(TAG_DECIMAL, bytes));
        assert!(v == StructuredValue::Text(expect.to_string()));
    }
}

#[test]
fn unsupported_wire_type_yields_labelled_error() {
    match convert_value(&scalar(999, &[1, 2, 3])) {
        StructuredValue::ErrorValue(ErrorInfo { message, context }) => {
            assert!(message == "Unsupported type");
            assert!(context == "wire type 999");
        },
        _ => panic!("expected an error value"),
    }
}

#[test]
fn unreadable_cell_is_a_column_scoped_error() {
    match convert_value(&WireValue::Unreadable) {
        StructuredValue::ErrorValue(e) => {
            assert!(e.message == "Column read error");
            assert!(e.context == "row assembly");
        },
        _ => panic!("expected an error value"),
    }
}

#[test]
fn null_column_converts_to_null() {
    assert!(convert_value(&WireValue::Scalar(TAG_INT, None)) == StructuredValue::Null);
}

#[test]
fn list_of_ints_recurses() {
    let w = WireValue::Collection(vec![
        scalar(TAG_INT, &[0, 0, 0, 1]),
        scalar(TAG_INT, &[0, 0, 0, 2]),
    ]);
    assert!(convert_value(&w) == StructuredValue::List(vec![StructuredValue::Int64(1), StructuredValue::Int64(2)]));
}

#[test]
fn nested_list_recurses() {
    let inner = WireValue::Collection(vec![scalar(TAG_TINY_INT, &[9])]);
    let w = WireValue::Collection(vec![inner, scalar(TAG_BOOLEAN, &[1])]);
    assert!(convert_value(&w) == StructuredValue::List(vec![
            StructuredValue::List(vec![StructuredValue::Int64(9)]),
            StructuredValue::Boolean(true),
        ]));
}

#[test]
fn map_round_trip_with_string_keys() {
    let w = WireValue::MapEntries(vec![
        (text_value("a"), scalar(TAG_INT, &[0, 0, 0, 1])),
        (text_value("b"), scalar(TAG_INT, &[0, 0, 0, 2])),
    ]);
    assert!(convert_value(&w) == StructuredValue::MapVal(vec![
            MapEntry { key: "a".to_string(), value: StructuredValue::Int64(1) },
            MapEntry { key: "b".to_string(), value: StructuredValue::Int64(2) },
        ]));
}

#[test]
fn map_with_non_textual_key_marks_the_key() {
    let w = WireValue::MapEntries(vec![(
        scalar(TAG_INT, &[0, 0, 0, 5]),
        scalar(TAG_INT, &[0, 0, 0, 1]),
    )]);
    assert!(convert_value(&w) == StructuredValue::MapVal(vec![MapEntry {
            key: "<error>".to_string(),
            value: StructuredValue::Int64(1),
        }]));
}

#[test]
fn conversion_is_idempotent() {
    let w = WireValue::MapEntries(vec![
        (text_value("k"), scalar(TAG_DOUBLE, &(0.1f64).to_bits().to_be_bytes())),
    ]);
    let first = convert_value(&w);
    let second = convert_value(&w);
    assert!(first == second);
    let t = scalar(TAG_TEXT, b"same");
    assert!(convert_value(&t) == convert_value(&t));
}
