//! The data model of the pipeline: wire-typed column values as the driver
//! hands them over, and the structured values the conversion produces.
use vstd::prelude::*;

verus! {

// Wire-type tags, as the driver reports them for each column.
pub const TAG_CUSTOM: u16 = 0;
pub const TAG_ASCII: u16 = 1;
pub const TAG_BIGINT: u16 = 2;
pub const TAG_BLOB: u16 = 3;
pub const TAG_BOOLEAN: u16 = 4;
pub const TAG_COUNTER: u16 = 5;
pub const TAG_DECIMAL: u16 = 6;
pub const TAG_DOUBLE: u16 = 7;
pub const TAG_FLOAT: u16 = 8;
pub const TAG_INT: u16 = 9;
pub const TAG_TEXT: u16 = 10;
pub const TAG_TIMESTAMP: u16 = 11;
pub const TAG_UUID: u16 = 12;
pub const TAG_VARCHAR: u16 = 13;
pub const TAG_VARINT: u16 = 14;
pub const TAG_TIMEUUID: u16 = 15;
pub const TAG_INET: u16 = 16;
pub const TAG_DATE: u16 = 17;
pub const TAG_TIME: u16 = 18;
pub const TAG_SMALL_INT: u16 = 19;
pub const TAG_TINY_INT: u16 = 20;
pub const TAG_DURATION: u16 = 21;
pub const TAG_LIST: u16 = 32;
pub const TAG_MAP: u16 = 33;
pub const TAG_SET: u16 = 34;
pub const TAG_UDT: u16 = 48;
pub const TAG_TUPLE: u16 = 49;

/// One column value as read off the wire: a scalar carries its wire-type tag
/// and its encoded bytes (`None` when the column is null); list-, set- and
/// tuple-typed columns carry their elements; map-typed columns carry their
/// key/value entries. A cell the driver could not hand over at all is
/// `Unreadable`: it becomes a column-scoped error value, and its row goes
/// on.
pub enum WireValue {
    Scalar(u16, Option<Vec<u8>>),
    Collection(Vec<WireValue>),
    MapEntries(Vec<(WireValue, WireValue)>),
    Unreadable,
}

/// Mathematical model of a `WireValue`.
pub ghost enum WireModel {
    Scalar(u16, Option<Seq<u8>>),
    Collection(Seq<WireModel>),
    MapEntries(Seq<(WireModel, WireModel)>),
    Unreadable,
}

/// A failure description: what went wrong, and at which stage of the
/// pipeline it happened.
#[derive(Clone, Debug, PartialEq, Eq)]
pub struct ErrorInfo {
    pub message: String,
    pub context: String,
}

/// One key/value pair of a converted map column: the key already coerced
/// to its string form.
#[derive(PartialEq, Eq)]
pub struct MapEntry {
    pub key: String,
    pub value: StructuredValue,
}

/// The tagged-union output type of the conversion. A float is carried by the
/// bits of its IEEE-754 double-precision representation; a timestamp is
/// milliseconds since the epoch; a duration is nanoseconds. Map keys are
/// coerced to their string form. A value that could not be decoded is an
/// `ErrorValue`, scoped to its own column.
#[derive(PartialEq, Eq)]
pub enum StructuredValue {
    Null,
    Boolean(bool),
    Int64(i64),
    Float64Bits(u64),
    Text(String),
    Bytes(Vec<u8>),
    Timestamp(i64),
    Duration(i64),
    List(Vec<StructuredValue>),
    MapVal(Vec<MapEntry>),
    ErrorValue(ErrorInfo),
}

/// Mathematical model of a `StructuredValue`.
pub ghost enum ValueModel {
    Null,
    Boolean(bool),
    Int64(int),
    Float64Bits(u64),
    Text(Seq<char>),
    Bytes(Seq<u8>),
    Timestamp(int),
    Duration(int),
    List(Seq<ValueModel>),
    MapVal(Seq<(Seq<char>, ValueModel)>),
    ErrorValue(Seq<char>, Seq<char>),
}

pub open spec fn wire_view(w: WireValue) -> WireModel
    decreases w,
{
    match w {
        WireValue::Scalar(tag, bytes) => WireModel::Scalar(
            tag,
            match bytes {
                Some(b) => Some(b@),
                None => None,
            },
        ),
        WireValue::Collection(items) => WireModel::Collection(wire_view_seq(items@)),
        WireValue::MapEntries(entries) => WireModel::MapEntries(wire_view_entries(entries@)),
        WireValue::Unreadable => WireModel::Unreadable,
    }
}

pub open spec fn wire_view_seq(s: Seq<WireValue>) -> Seq<WireModel>
    decreases s,
{
    if s.len() == 0 {
        Seq::empty()
    } else {
        seq![wire_view(s[0])] + wire_view_seq(s.subrange(1, s.len() as int))
    }
}

pub open spec fn wire_view_entries(s: Seq<(WireValue, WireValue)>) -> Seq<(WireModel, WireModel)>
    decreases s,
{
    if s.len() == 0 {
        Seq::empty()
    } else {
        seq![(wire_view(s[0].0), wire_view(s[0].1))] + wire_view_entries(
            s.subrange(1, s.len() as int),
        )
    }
}

pub open spec fn value_view(v: StructuredValue) -> ValueModel
    decreases v,
{
    match v {
        StructuredValue::Null => ValueModel::Null,
        StructuredValue::Boolean(b) => ValueModel::Boolean(b),
        StructuredValue::Int64(i) => ValueModel::Int64(i as int),
        StructuredValue::Float64Bits(u) => ValueModel::Float64Bits(u),
        StructuredValue::Text(s) => ValueModel::Text(s@),
        StructuredValue::Bytes(b) => ValueModel::Bytes(b@),
        StructuredValue::Timestamp(t) => ValueModel::Timestamp(t as int),
        StructuredValue::Duration(d) => ValueModel::Duration(d as int),
        StructuredValue::List(items) => ValueModel::List(value_view_seq(items@)),
        StructuredValue::MapVal(entries) => ValueModel::MapVal(value_view_entries(entries@)),
        StructuredValue::ErrorValue(e) => ValueModel::ErrorValue(e.message@, e.context@),
    }
}

pub open spec fn value_view_seq(s: Seq<StructuredValue>) -> Seq<ValueModel>
    decreases s,
{
    if s.len() == 0 {
        Seq::empty()
    } else {
        seq![value_view(s[0])] + value_view_seq(s.subrange(1, s.len() as int))
    }
}

pub open spec fn value_view_entries(s: Seq<MapEntry>) -> Seq<(Seq<char>, ValueModel)>
    decreases s,
{
    if s.len() == 0 {
        Seq::empty()
    } else {
        seq![(s[0].key@, value_view(s[0].value))] + value_view_entries(s.subrange(1, s.len() as int))
    }
}

/// The element views of a sequence, one by one.
pub proof fn lemma_value_view_seq_index(s: Seq<StructuredValue>, i: int)
    requires
        0 <= i < s.len(),
    ensures
        value_view_seq(s).len() == s.len(),
        value_view_seq(s)[i] == value_view(s[i]),
    decreases s.len(),
{
    if i == 0 {
        lemma_value_view_seq_len(s.subrange(1, s.len() as int));
    } else {
        lemma_value_view_seq_index(s.subrange(1, s.len() as int), i - 1);
    }
}

pub proof fn lemma_value_view_seq_len(s: Seq<StructuredValue>)
    ensures
        value_view_seq(s).len() == s.len(),
    decreases s.len(),
{
    if s.len() > 0 {
        lemma_value_view_seq_len(s.subrange(1, s.len() as int));
    }
}

} // verus!
