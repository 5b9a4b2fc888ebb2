//! The stable representation of plans that travels with a proof.
//!
//! A plan is encoded into a tree of plain values and decoded back against a
//! registry of functions. Encoding refuses every construct that has no
//! representation; decoding refuses representations that no encoder writes
//! and functions that the registry does not know.
use crate::join_mode::JoinMode;
use crate::metadata::{entries_map, Metadata};
use crate::plan::{
    dotted, lemma_dotted, JoinConstraint, JoinType, Operator, Schema, SchemaView, TableReference,
};
use crate::schema::{
    fields_view, text_opt, DataType, Field, FieldView, IntervalUnit, TimeUnit, TypeView,
};
use crate::seqs::{dot_free, lemma_joined_injective, texts_view};
use crate::text::{same_text, signed_decimal};
use vstd::prelude::*;

verus! {

/// Why a plan could not be encoded or decoded.
#[derive(Debug, Clone, Copy, PartialEq, Eq, Structural)]
pub enum CodecError {
    /// The value has no representation, or the representation no value.
    InvalidData,
    /// The registry knows no aggregate function of that name.
    UnknownAggregate,
    /// The registry knows no scalar function of that name.
    UnknownScalar,
    /// The query engine does not accept an operator of the plan.
    Refused,
}

// ---------------------------------------------------------------------------
// Names and numbers that are read or written by other crates
// ---------------------------------------------------------------------------

/// Whether a character may stand in a name that needs no quotes.
pub open spec fn plain_char(c: char) -> bool {
    'a' <= c <= 'z' || '0' <= c <= '9' || c == '_'
}

/// Whether a name needs no quotes: lower-case letters, digits and
/// underscores, with no digit in front.
pub open spec fn plain_name(s: Seq<char>) -> bool {
    &&& s.len() > 0
    &&& !('0' <= s[0] <= '9')
    &&& forall|i: int| 0 <= i < s.len() ==> plain_char(#[trigger] s[i])
}

/// Whether a reference has one to three parts, none of which needs quotes.
pub open spec fn plain_reference(parts: Seq<Seq<char>>) -> bool {
    &&& 1 <= parts.len() <= 3
    &&& forall|i: int| 0 <= i < parts.len() ==> plain_name(#[trigger] parts[i])
}

/// The parts of the table reference that a text spells.
pub uninterp spec fn parsed_reference(text: Seq<char>) -> Seq<Seq<char>>;

/// Calls `datafusion_common::TableReference::parse_str`, which reads the text
/// as a dotted SQL identifier, and hands out the parts of the reference. The
/// contract claims that the parts depend on the text alone, that there are
/// one, two or three of them, and that names which need no quotes are read
/// from a dotted text as they stand there.
#[verifier::external_body]
fn parse_reference(text: &str) -> (r: Vec<String>)
    ensures
        1 <= r@.len() <= 3,
        texts_view(r@) == parsed_reference(text@),
        forall|parts: Seq<Seq<char>>|
            plain_reference(parts) && text@ == #[trigger] dotted(parts) ==> texts_view(r@) == parts,
{
    datafusion_common::TableReference::parse_str(text).to_vec()
}

/// Whether a text is a dotted reference none of whose parts needs quotes.
pub open spec fn spells_plainly(text: Seq<char>, parts: Seq<Seq<char>>) -> bool {
    plain_reference(parts) && text == dotted(parts)
}

/// The parts of the reference that a text is read as: those that it spells
/// plainly, else whatever the identifier in it stands for.
pub open spec fn read_reference(text: Seq<char>) -> Seq<Seq<char>> {
    if exists|parts: Seq<Seq<char>>| spells_plainly(text, parts) {
        choose|parts: Seq<Seq<char>>| spells_plainly(text, parts)
    } else {
        parsed_reference(text)
    }
}

/// The reference that a text spells.
pub fn reference_from_text(text: &str) -> (r: TableReference)
    ensures
        r@ == read_reference(text@),
{
    let parts: Vec<String> = parse_reference(text);
    let r = reference_from_parts(&parts);
    proof {
        assert(r@ =~= texts_view(parts@));
        if exists|p: Seq<Seq<char>>| spells_plainly(text@, p) {
            let p = choose|p: Seq<Seq<char>>| spells_plainly(text@, p);
            assert(text@ == dotted(p));
        }
    }
    r
}

/// A reference none of whose parts needs quotes is read back from its own
/// text.
pub proof fn plain_references_are_read_back(parts: Seq<Seq<char>>)
    requires
        plain_reference(parts),
    ensures
        read_reference(dotted(parts)) == parts,
{
    assert(spells_plainly(dotted(parts), parts));
    let q = choose|q: Seq<Seq<char>>| spells_plainly(dotted(parts), q);
    lemma_dotted(parts);
    lemma_dotted(q);
    assert forall|i: int| 0 <= i < parts.len() implies dot_free(#[trigger] parts[i]) by {
        lemma_plain_is_dot_free(parts[i]);
    }
    assert forall|i: int| 0 <= i < q.len() implies dot_free(#[trigger] q[i]) by {
        lemma_plain_is_dot_free(q[i]);
    }
    lemma_joined_injective(parts, q);
}

proof fn lemma_plain_is_dot_free(s: Seq<char>)
    requires
        plain_name(s),
    ensures
        dot_free(s),
{
    assert forall|i: int| 0 <= i < s.len() implies s[i] != '.' by {
        assert(plain_char(s[i]));
    }
}

/// The reference with the given parts, outermost first.
pub fn reference_from_parts(parts: &Vec<String>) -> (r: TableReference)
    requires
        1 <= parts@.len() <= 3,
    ensures
        r@ == Seq::new(parts@.len(), |i: int| parts@[i]@),
{
    let r = if parts.len() == 1 {
        TableReference::Bare { table: parts[0].clone() }
    } else if parts.len() == 2 {
        TableReference::Partial { schema: parts[0].clone(), table: parts[1].clone() }
    } else {
        TableReference::Full {
            catalog: parts[0].clone(),
            schema: parts[1].clone(),
            table: parts[2].clone(),
        }
    };
    assert(r@ =~= Seq::new(parts@.len(), |i: int| parts@[i]@));
    r
}

/// Decimal text of a 256-bit integer given by its low and high halves.
pub open spec fn wide_text(low: u128, high: i128) -> Seq<char> {
    signed_decimal(high * 0x1_0000_0000_0000_0000_0000_0000_0000_0000int + low)
}

/// The 256-bit integer that a text spells, as its low and high halves.
pub uninterp spec fn wide_parsed(text: Seq<char>) -> Option<(u128, i128)>;

/// Calls `to_string` of arrow's `i256`, which writes the integer in decimal.
/// The contract claims that the text is its decimal rendering, with a sign only
/// where it is negative, and that reading it back gives the same integer.
#[verifier::external_body]
pub(crate) fn wide_to_text(low: u128, high: i128) -> (r: String)
    ensures
        r@ == wide_text(low, high),
        wide_parsed(r@) == Some((low, high)),
{
    datafusion_common::arrow::datatypes::i256::from_parts(low, high).to_string()
}

/// Calls `from_str` of arrow's `i256`, which reads a decimal integer. The
/// contract claims that the outcome depends on the text alone.
#[verifier::external_body]
pub(crate) fn wide_from_text(text: &str) -> (r: Option<(u128, i128)>)
    ensures
        r == wide_parsed(text@),
{
    text.parse::<datafusion_common::arrow::datatypes::i256>().ok().map(|v| v.to_parts())
}

/// The functions that decoding may refer to: pairs of the name looked up and
/// the name of the function found under it.
#[derive(Debug)]
pub struct FunctionRegistry {
    pub aggregates: Vec<(String, String)>,
    pub scalars: Vec<(String, String)>,
}

/// The name of the function found under `name`.
pub open spec fn looked_up(list: Seq<(String, String)>, name: Seq<char>) -> Option<Seq<char>>
    decreases list.len(),
{
    if list.len() == 0 {
        None
    } else if list[0].0@ == name {
        Some(list[0].1@)
    } else {
        looked_up(list.skip(1), name)
    }
}

pub(crate) fn look_up(list: &Vec<(String, String)>, name: &str) -> (r: Option<String>)
    ensures
        text_opt(r) == looked_up(list@, name@),
{
    let mut i: usize = 0;
    assert(list@.skip(0) =~= list@);
    while i < list.len()
        invariant
            i <= list@.len(),
            looked_up(list@, name@) == looked_up(list@.skip(i as int), name@),
        decreases list@.len() - i,
    {
        proof {
            assert(list@.skip(i as int)[0] == list@[i as int]);
            assert(list@.skip(i as int).skip(1) =~= list@.skip(i + 1));
        }
        if same_text(list[i].0.as_str(), name) {
            return Some(list[i].1.clone());
        }
        i = i + 1;
    }
    None
}

// ---------------------------------------------------------------------------
// Units
// ---------------------------------------------------------------------------

/// The written form of a time unit.
pub open spec fn time_unit_text(u: TimeUnit) -> Seq<char> {
    match u {
        TimeUnit::Second => "Second"@,
        TimeUnit::Millisecond => "Millisecond"@,
        TimeUnit::Microsecond => "Microsecond"@,
        TimeUnit::Nanosecond => "Nanosecond"@,
    }
}

/// The time unit with the given written form.
pub open spec fn time_unit_read(s: Seq<char>) -> Option<TimeUnit> {
    if s == "Second"@ {
        Some(TimeUnit::Second)
    } else if s == "Millisecond"@ {
        Some(TimeUnit::Millisecond)
    } else if s == "Microsecond"@ {
        Some(TimeUnit::Microsecond)
    } else if s == "Nanosecond"@ {
        Some(TimeUnit::Nanosecond)
    } else {
        None
    }
}

/// The written form of an interval unit.
pub open spec fn interval_unit_text(u: IntervalUnit) -> Seq<char> {
    match u {
        IntervalUnit::YearMonth => "YearMonth"@,
        IntervalUnit::DayTime => "DayTime"@,
        IntervalUnit::MonthDayNano => "MonthDayNano"@,
    }
}

/// The interval unit with the given written form.
pub open spec fn interval_unit_read(s: Seq<char>) -> Option<IntervalUnit> {
    if s == "YearMonth"@ {
        Some(IntervalUnit::YearMonth)
    } else if s == "DayTime"@ {
        Some(IntervalUnit::DayTime)
    } else if s == "MonthDayNano"@ {
        Some(IntervalUnit::MonthDayNano)
    } else {
        None
    }
}

/// Every unit is read back from its written form.
pub proof fn unit_texts_read_back()
    ensures
        forall|u: TimeUnit| time_unit_read(#[trigger] time_unit_text(u)) == Some(u),
        forall|u: IntervalUnit| interval_unit_read(#[trigger] interval_unit_text(u)) == Some(u),
{
    reveal_strlit("Second");
    reveal_strlit("Millisecond");
    reveal_strlit("Microsecond");
    reveal_strlit("Nanosecond");
    reveal_strlit("YearMonth");
    reveal_strlit("DayTime");
    reveal_strlit("MonthDayNano");
    assert("Second"@.len() == 6);
    assert("Millisecond"@.len() == 11);
    assert("Microsecond"@.len() == 11);
    assert("Nanosecond"@.len() == 10);
    assert("Millisecond"@[1] == 'i' && "Millisecond"@[2] == 'l');
    assert("Microsecond"@[1] == 'i' && "Microsecond"@[2] == 'c');
    assert("YearMonth"@.len() == 9);
    assert("DayTime"@.len() == 7);
    assert("MonthDayNano"@.len() == 12);
}

fn write_time_unit(u: TimeUnit) -> (r: String)
    ensures
        r@ == time_unit_text(u),
{
    match u {
        TimeUnit::Second => "Second".to_owned(),
        TimeUnit::Millisecond => "Millisecond".to_owned(),
        TimeUnit::Microsecond => "Microsecond".to_owned(),
        TimeUnit::Nanosecond => "Nanosecond".to_owned(),
    }
}

fn read_time_unit(s: &str) -> (r: Option<TimeUnit>)
    ensures
        r == time_unit_read(s@),
{
    if same_text(s, "Second") {
        Some(TimeUnit::Second)
    } else if same_text(s, "Millisecond") {
        Some(TimeUnit::Millisecond)
    } else if same_text(s, "Microsecond") {
        Some(TimeUnit::Microsecond)
    } else if same_text(s, "Nanosecond") {
        Some(TimeUnit::Nanosecond)
    } else {
        None
    }
}

fn write_interval_unit(u: IntervalUnit) -> (r: String)
    ensures
        r@ == interval_unit_text(u),
{
    match u {
        IntervalUnit::YearMonth => "YearMonth".to_owned(),
        IntervalUnit::DayTime => "DayTime".to_owned(),
        IntervalUnit::MonthDayNano => "MonthDayNano".to_owned(),
    }
}

fn read_interval_unit(s: &str) -> (r: Option<IntervalUnit>)
    ensures
        r == interval_unit_read(s@),
{
    if same_text(s, "YearMonth") {
        Some(IntervalUnit::YearMonth)
    } else if same_text(s, "DayTime") {
        Some(IntervalUnit::DayTime)
    } else if same_text(s, "MonthDayNano") {
        Some(IntervalUnit::MonthDayNano)
    } else {
        None
    }
}

// ---------------------------------------------------------------------------
// Types, fields and schemas
// ---------------------------------------------------------------------------

/// Representation of a column type.
#[derive(Debug)]
pub enum DataTypeRepr {
    Null,
    Boolean,
    Int8,
    Int16,
    Int32,
    Int64,
    UInt8,
    UInt16,
    UInt32,
    UInt64,
    Float32,
    Float64,
    Decimal128 { precision: u8, scale: i8 },
    Decimal256 { precision: u8, scale: i8 },
    Utf8,
    Utf8View,
    LargeUtf8,
    Binary,
    LargeBinary,
    FixedSizeBinary(i32),
    Date32,
    Date64,
    Time32Second,
    Time32Millisecond,
    Time64Microsecond,
    Time64Nanosecond,
    Timestamp { unit: String, timezone: Option<String> },
    Duration { unit: String },
    Interval { unit: String },
    List(Box<FieldRepr>),
    LargeList(Box<FieldRepr>),
    FixedSizeList(Box<FieldRepr>, i32),
    Struct(Vec<FieldRepr>),
}

/// Representation of a field.
#[derive(Debug)]
pub struct FieldRepr {
    pub name: String,
    pub data_type: DataTypeRepr,
    pub nullable: bool,
    pub metadata: Vec<(String, String)>,
}

/// Representation of a schema.
#[derive(Debug)]
pub struct SchemaRepr {
    pub fields: Vec<FieldRepr>,
    pub metadata: Vec<(String, String)>,
}

/// Whether a type has a representation.
pub open spec fn type_encodable(t: TypeView) -> bool
    decreases t,
{
    match t {
        TypeView::Time32(u) => u == TimeUnit::Second || u == TimeUnit::Millisecond,
        TypeView::Time64(u) => u == TimeUnit::Microsecond || u == TimeUnit::Nanosecond,
        TypeView::List(f) => field_encodable(*f),
        TypeView::LargeList(f) => field_encodable(*f),
        TypeView::FixedSizeList(f, _) => field_encodable(*f),
        TypeView::Struct(fs) => fields_encodable(fs),
        TypeView::Float16 | TypeView::BinaryView | TypeView::ListView(_)
        | TypeView::LargeListView(_) | TypeView::Union(_, _, _) | TypeView::Dictionary(_, _)
        | TypeView::MapOf(_, _) | TypeView::RunEndEncoded(_, _) => false,
        _ => true,
    }
}

/// Whether a field has a representation.
pub open spec fn field_encodable(f: FieldView) -> bool
    decreases f,
{
    type_encodable(f.data_type)
}

/// Whether every field of a list has a representation.
pub open spec fn fields_encodable(fs: Seq<FieldView>) -> bool
    decreases fs,
{
    forall|i: int| 0 <= i < fs.len() ==> field_encodable(#[trigger] fs[i])
}

/// Whether `r` is the representation of `t`.
pub open spec fn type_encodes(r: DataTypeRepr, t: TypeView) -> bool
    decreases r,
{
    match (r, t) {
        (DataTypeRepr::Null, TypeView::Null) => true,
        (DataTypeRepr::Boolean, TypeView::Boolean) => true,
        (DataTypeRepr::Int8, TypeView::Int8) => true,
        (DataTypeRepr::Int16, TypeView::Int16) => true,
        (DataTypeRepr::Int32, TypeView::Int32) => true,
        (DataTypeRepr::Int64, TypeView::Int64) => true,
        (DataTypeRepr::UInt8, TypeView::UInt8) => true,
        (DataTypeRepr::UInt16, TypeView::UInt16) => true,
        (DataTypeRepr::UInt32, TypeView::UInt32) => true,
        (DataTypeRepr::UInt64, TypeView::UInt64) => true,
        (DataTypeRepr::Float32, TypeView::Float32) => true,
        (DataTypeRepr::Float64, TypeView::Float64) => true,
        (DataTypeRepr::Utf8, TypeView::Utf8) => true,
        (DataTypeRepr::Utf8View, TypeView::Utf8View) => true,
        (DataTypeRepr::LargeUtf8, TypeView::LargeUtf8) => true,
        (DataTypeRepr::Binary, TypeView::Binary) => true,
        (DataTypeRepr::LargeBinary, TypeView::LargeBinary) => true,
        (DataTypeRepr::Date32, TypeView::Date32) => true,
        (DataTypeRepr::Date64, TypeView::Date64) => true,
        (
            DataTypeRepr::Decimal128 { precision, scale },
            TypeView::Decimal128(p, s),
        ) => precision == p && scale == s,
        (
            DataTypeRepr::Decimal256 { precision, scale },
            TypeView::Decimal256(p, s),
        ) => precision == p && scale == s,
        (DataTypeRepr::FixedSizeBinary(n), TypeView::FixedSizeBinary(m)) => n == m,
        (DataTypeRepr::Time32Second, TypeView::Time32(u)) => u == TimeUnit::Second,
        (DataTypeRepr::Time32Millisecond, TypeView::Time32(u)) => u == TimeUnit::Millisecond,
        (DataTypeRepr::Time64Microsecond, TypeView::Time64(u)) => u == TimeUnit::Microsecond,
        (DataTypeRepr::Time64Nanosecond, TypeView::Time64(u)) => u == TimeUnit::Nanosecond,
        (DataTypeRepr::Timestamp { unit, timezone }, TypeView::Timestamp(u, tz)) => unit@
            == time_unit_text(u) && text_opt(timezone) == tz,
        (DataTypeRepr::Duration { unit }, TypeView::Duration(u)) => unit@ == time_unit_text(u),
        (DataTypeRepr::Interval { unit }, TypeView::Interval(u)) => unit@ == interval_unit_text(u),
        (DataTypeRepr::List(f), TypeView::List(v)) => field_encodes(*f, *v),
        (DataTypeRepr::LargeList(f), TypeView::LargeList(v)) => field_encodes(*f, *v),
        (DataTypeRepr::FixedSizeList(f, n), TypeView::FixedSizeList(v, m)) => field_encodes(*f, *v)
            && n == m,
        (DataTypeRepr::Struct(fs), TypeView::Struct(vs)) => fields_encode(fs@, vs),
        _ => false,
    }
}

/// Whether `r` is the representation of `f`.
pub open spec fn field_encodes(r: FieldRepr, f: FieldView) -> bool
    decreases r,
{
    r.name@ == f.name && type_encodes(r.data_type, f.data_type) && r.nullable == f.nullable
        && entries_map(r.metadata@) == f.metadata
}

/// Whether `rs` are the representations of `fs`, in order.
pub open spec fn fields_encode(rs: Seq<FieldRepr>, fs: Seq<FieldView>) -> bool
    decreases rs,
{
    rs.len() == fs.len() && forall|i: int|
        0 <= i < rs.len() ==> field_encodes(#[trigger] rs[i], fs[i])
}

/// The type that a representation stands for.
pub open spec fn type_decoded(r: DataTypeRepr) -> Option<TypeView>
    decreases r,
{
    match r {
        DataTypeRepr::Null => Some(TypeView::Null),
        DataTypeRepr::Boolean => Some(TypeView::Boolean),
        DataTypeRepr::Int8 => Some(TypeView::Int8),
        DataTypeRepr::Int16 => Some(TypeView::Int16),
        DataTypeRepr::Int32 => Some(TypeView::Int32),
        DataTypeRepr::Int64 => Some(TypeView::Int64),
        DataTypeRepr::UInt8 => Some(TypeView::UInt8),
        DataTypeRepr::UInt16 => Some(TypeView::UInt16),
        DataTypeRepr::UInt32 => Some(TypeView::UInt32),
        DataTypeRepr::UInt64 => Some(TypeView::UInt64),
        DataTypeRepr::Float32 => Some(TypeView::Float32),
        DataTypeRepr::Float64 => Some(TypeView::Float64),
        DataTypeRepr::Utf8 => Some(TypeView::Utf8),
        DataTypeRepr::Utf8View => Some(TypeView::Utf8View),
        DataTypeRepr::LargeUtf8 => Some(TypeView::LargeUtf8),
        DataTypeRepr::Binary => Some(TypeView::Binary),
        DataTypeRepr::LargeBinary => Some(TypeView::LargeBinary),
        DataTypeRepr::Date32 => Some(TypeView::Date32),
        DataTypeRepr::Date64 => Some(TypeView::Date64),
        DataTypeRepr::Decimal128 { precision, scale } => Some(
            TypeView::Decimal128(precision, scale),
        ),
        DataTypeRepr::Decimal256 { precision, scale } => Some(
            TypeView::Decimal256(precision, scale),
        ),
        DataTypeRepr::FixedSizeBinary(n) => Some(TypeView::FixedSizeBinary(n)),
        DataTypeRepr::Time32Second => Some(TypeView::Time32(TimeUnit::Second)),
        DataTypeRepr::Time32Millisecond => Some(TypeView::Time32(TimeUnit::Millisecond)),
        DataTypeRepr::Time64Microsecond => Some(TypeView::Time64(TimeUnit::Microsecond)),
        DataTypeRepr::Time64Nanosecond => Some(TypeView::Time64(TimeUnit::Nanosecond)),
        DataTypeRepr::Timestamp { unit, timezone } => match time_unit_read(unit@) {
            Some(u) => Some(TypeView::Timestamp(u, text_opt(timezone))),
            None => None,
        },
        DataTypeRepr::Duration { unit } => match time_unit_read(unit@) {
            Some(u) => Some(TypeView::Duration(u)),
            None => None,
        },
        DataTypeRepr::Interval { unit } => match interval_unit_read(unit@) {
            Some(u) => Some(TypeView::Interval(u)),
            None => None,
        },
        DataTypeRepr::List(f) => match field_decoded(*f) {
            Some(v) => Some(TypeView::List(Box::new(v))),
            None => None,
        },
        DataTypeRepr::LargeList(f) => match field_decoded(*f) {
            Some(v) => Some(TypeView::LargeList(Box::new(v))),
            None => None,
        },
        DataTypeRepr::FixedSizeList(f, n) => match field_decoded(*f) {
            Some(v) => Some(TypeView::FixedSizeList(Box::new(v), n)),
            None => None,
        },
        DataTypeRepr::Struct(fs) => match fields_decoded(fs@) {
            Some(vs) => Some(TypeView::Struct(vs)),
            None => None,
        },
    }
}

/// The field that a representation stands for.
pub open spec fn field_decoded(r: FieldRepr) -> Option<FieldView>
    decreases r,
{
    match type_decoded(r.data_type) {
        Some(t) => Some(
            FieldView {
                name: r.name@,
                data_type: t,
                nullable: r.nullable,
                metadata: entries_map(r.metadata@),
            },
        ),
        None => None,
    }
}

/// The fields that a list of representations stands for.
pub open spec fn fields_decoded(rs: Seq<FieldRepr>) -> Option<Seq<FieldView>>
    decreases rs,
{
    if forall|i: int| 0 <= i < rs.len() ==> field_decoded(#[trigger] rs[i]) is Some {
        Some(
            Seq::new(
                rs.len(),
                |i: int|
                    if 0 <= i < rs.len() {
                        field_decoded(rs[i])->0
                    } else {
                        arbitrary()
                    },
            ),
        )
    } else {
        None
    }
}

fn copy_opt_text(s: &Option<String>) -> (r: Option<String>)
    ensures
        text_opt(r) == text_opt(*s),
{
    match s {
        Some(t) => Some(t.clone()),
        None => None,
    }
}

impl DataTypeRepr {
    /// Encodes a type; refuses exactly the types without a representation.
    pub fn from_data_type(data_type: &DataType) -> (r: Result<DataTypeRepr, CodecError>)
        ensures
            match r {
                Ok(repr) => type_encodable(data_type@) && type_encodes(repr, data_type@),
                Err(e) => e == CodecError::InvalidData && !type_encodable(data_type@),
            },
        decreases data_type,
    {
        match data_type {
            DataType::Null => Ok(DataTypeRepr::Null),
            DataType::Boolean => Ok(DataTypeRepr::Boolean),
            DataType::Int8 => Ok(DataTypeRepr::Int8),
            DataType::Int16 => Ok(DataTypeRepr::Int16),
            DataType::Int32 => Ok(DataTypeRepr::Int32),
            DataType::Int64 => Ok(DataTypeRepr::Int64),
            DataType::UInt8 => Ok(DataTypeRepr::UInt8),
            DataType::UInt16 => Ok(DataTypeRepr::UInt16),
            DataType::UInt32 => Ok(DataTypeRepr::UInt32),
            DataType::UInt64 => Ok(DataTypeRepr::UInt64),
            DataType::Float32 => Ok(DataTypeRepr::Float32),
            DataType::Float64 => Ok(DataTypeRepr::Float64),
            DataType::Utf8 => Ok(DataTypeRepr::Utf8),
            DataType::Utf8View => Ok(DataTypeRepr::Utf8View),
            DataType::LargeUtf8 => Ok(DataTypeRepr::LargeUtf8),
            DataType::Binary => Ok(DataTypeRepr::Binary),
            DataType::LargeBinary => Ok(DataTypeRepr::LargeBinary),
            DataType::Date32 => Ok(DataTypeRepr::Date32),
            DataType::Date64 => Ok(DataTypeRepr::Date64),
            DataType::Decimal128(p, s) => Ok(
                DataTypeRepr::Decimal128 { precision: *p, scale: *s },
            ),
            DataType::Decimal256(p, s) => Ok(
                DataTypeRepr::Decimal256 { precision: *p, scale: *s },
            ),
            DataType::FixedSizeBinary(n) => Ok(DataTypeRepr::FixedSizeBinary(*n)),
            DataType::Time32(TimeUnit::Second) => Ok(DataTypeRepr::Time32Second),
            DataType::Time32(TimeUnit::Millisecond) => Ok(DataTypeRepr::Time32Millisecond),
            DataType::Time64(TimeUnit::Microsecond) => Ok(DataTypeRepr::Time64Microsecond),
            DataType::Time64(TimeUnit::Nanosecond) => Ok(DataTypeRepr::Time64Nanosecond),
            DataType::Timestamp(u, tz) => Ok(
                DataTypeRepr::Timestamp { unit: write_time_unit(*u), timezone: copy_opt_text(tz) },
            ),
            DataType::Duration(u) => Ok(DataTypeRepr::Duration { unit: write_time_unit(*u) }),
            DataType::Interval(u) => Ok(DataTypeRepr::Interval { unit: write_interval_unit(*u) }),
            DataType::List(f) => match FieldRepr::from_field(f) {
                Ok(x) => Ok(DataTypeRepr::List(Box::new(x))),
                Err(e) => Err(e),
            },
            DataType::LargeList(f) => match FieldRepr::from_field(f) {
                Ok(x) => Ok(DataTypeRepr::LargeList(Box::new(x))),
                Err(e) => Err(e),
            },
            DataType::FixedSizeList(f, n) => match FieldRepr::from_field(f) {
                Ok(x) => Ok(DataTypeRepr::FixedSizeList(Box::new(x), *n)),
                Err(e) => Err(e),
            },
            DataType::Struct(fs) => match FieldRepr::from_fields(fs) {
                Ok(x) => Ok(DataTypeRepr::Struct(x)),
                Err(e) => Err(e),
            },
            _ => Err(CodecError::InvalidData),
        }
    }

    /// Decodes a type; refuses exactly the representations with an unknown
    /// unit.
    pub fn to_data_type(&self) -> (r: Result<DataType, CodecError>)
        ensures
            match r {
                Ok(t) => type_decoded(*self) == Some(t@),
                Err(e) => e == CodecError::InvalidData && type_decoded(*self) is None,
            },
        decreases self,
    {
        match self {
            DataTypeRepr::Null => Ok(DataType::Null),
            DataTypeRepr::Boolean => Ok(DataType::Boolean),
            DataTypeRepr::Int8 => Ok(DataType::Int8),
            DataTypeRepr::Int16 => Ok(DataType::Int16),
            DataTypeRepr::Int32 => Ok(DataType::Int32),
            DataTypeRepr::Int64 => Ok(DataType::Int64),
            DataTypeRepr::UInt8 => Ok(DataType::UInt8),
            DataTypeRepr::UInt16 => Ok(DataType::UInt16),
            DataTypeRepr::UInt32 => Ok(DataType::UInt32),
            DataTypeRepr::UInt64 => Ok(DataType::UInt64),
            DataTypeRepr::Float32 => Ok(DataType::Float32),
            DataTypeRepr::Float64 => Ok(DataType::Float64),
            DataTypeRepr::Utf8 => Ok(DataType::Utf8),
            DataTypeRepr::Utf8View => Ok(DataType::Utf8View),
            DataTypeRepr::LargeUtf8 => Ok(DataType::LargeUtf8),
            DataTypeRepr::Binary => Ok(DataType::Binary),
            DataTypeRepr::LargeBinary => Ok(DataType::LargeBinary),
            DataTypeRepr::Date32 => Ok(DataType::Date32),
            DataTypeRepr::Date64 => Ok(DataType::Date64),
            DataTypeRepr::Decimal128 { precision, scale } => Ok(
                DataType::Decimal128(*precision, *scale),
            ),
            DataTypeRepr::Decimal256 { precision, scale } => Ok(
                DataType::Decimal256(*precision, *scale),
            ),
            DataTypeRepr::FixedSizeBinary(n) => Ok(DataType::FixedSizeBinary(*n)),
            DataTypeRepr::Time32Second => Ok(DataType::Time32(TimeUnit::Second)),
            DataTypeRepr::Time32Millisecond => Ok(DataType::Time32(TimeUnit::Millisecond)),
            DataTypeRepr::Time64Microsecond => Ok(DataType::Time64(TimeUnit::Microsecond)),
            DataTypeRepr::Time64Nanosecond => Ok(DataType::Time64(TimeUnit::Nanosecond)),
            DataTypeRepr::Timestamp { unit, timezone } => match read_time_unit(unit.as_str()) {
                Some(u) => Ok(DataType::Timestamp(u, copy_opt_text(timezone))),
                None => Err(CodecError::InvalidData),
            },
            DataTypeRepr::Duration { unit } => match read_time_unit(unit.as_str()) {
                Some(u) => Ok(DataType::Duration(u)),
                None => Err(CodecError::InvalidData),
            },
            DataTypeRepr::Interval { unit } => match read_interval_unit(unit.as_str()) {
                Some(u) => Ok(DataType::Interval(u)),
                None => Err(CodecError::InvalidData),
            },
            DataTypeRepr::List(f) => match f.to_field() {
                Ok(x) => Ok(DataType::List(Box::new(x))),
                Err(e) => Err(e),
            },
            DataTypeRepr::LargeList(f) => match f.to_field() {
                Ok(x) => Ok(DataType::LargeList(Box::new(x))),
                Err(e) => Err(e),
            },
            DataTypeRepr::FixedSizeList(f, n) => match f.to_field() {
                Ok(x) => Ok(DataType::FixedSizeList(Box::new(x), *n)),
                Err(e) => Err(e),
            },
            DataTypeRepr::Struct(fs) => match FieldRepr::to_fields(fs) {
                Ok(x) => Ok(DataType::Struct(x)),
                Err(e) => Err(e),
            },
        }
    }
}

impl FieldRepr {
    /// Encodes a field; refuses exactly the fields whose type has no
    /// representation.
    pub fn from_field(field: &Field) -> (r: Result<FieldRepr, CodecError>)
        ensures
            match r {
                Ok(repr) => field_encodable(field@) && field_encodes(repr, field@),
                Err(e) => e == CodecError::InvalidData && !field_encodable(field@),
            },
        decreases field,
    {
        match DataTypeRepr::from_data_type(&field.data_type) {
            Ok(data_type) => Ok(
                FieldRepr {
                    name: field.name.clone(),
                    data_type,
                    nullable: field.nullable,
                    metadata: field.metadata.to_entries(),
                },
            ),
            Err(e) => Err(e),
        }
    }

    /// Encodes a list of fields.
    pub fn from_fields(fields: &Vec<Field>) -> (r: Result<Vec<FieldRepr>, CodecError>)
        ensures
            match r {
                Ok(reprs) => fields_encodable(fields_view(fields@)) && fields_encode(
                    reprs@,
                    fields_view(fields@),
                ),
                Err(e) => e == CodecError::InvalidData && !fields_encodable(fields_view(fields@)),
            },
        decreases fields,
    {
        let mut out: Vec<FieldRepr> = Vec::new();
        let mut i: usize = 0;
        while i < fields.len()
            invariant
                i <= fields@.len(),
                out@.len() == i,
                forall|j: int|
                    0 <= j < i ==> field_encodes(#[trigger] out@[j], fields_view(fields@)[j])
                        && field_encodable(fields_view(fields@)[j]),
            decreases fields@.len() - i,
        {
            match FieldRepr::from_field(&fields[i]) {
                Ok(x) => {
                    out.push(x);
                },
                Err(e) => {
                    assert(!field_encodable(fields_view(fields@)[i as int]));
                    return Err(e);
                },
            }
            i = i + 1;
        }
        proof {
            assert forall|j: int| 0 <= j < fields_view(fields@).len() implies field_encodable(
                #[trigger] fields_view(fields@)[j],
            ) by {
                assert(field_encodes(out@[j], fields_view(fields@)[j]));
            }
        }
        Ok(out)
    }

    /// Decodes a field.
    pub fn to_field(&self) -> (r: Result<Field, CodecError>)
        ensures
            match r {
                Ok(f) => field_decoded(*self) == Some(f@),
                Err(e) => e == CodecError::InvalidData && field_decoded(*self) is None,
            },
        decreases self,
    {
        match self.data_type.to_data_type() {
            Ok(data_type) => Ok(
                Field {
                    name: self.name.clone(),
                    data_type,
                    nullable: self.nullable,
                    metadata: Metadata::from_entries(&self.metadata),
                },
            ),
            Err(e) => Err(e),
        }
    }

    /// Decodes a list of fields.
    pub fn to_fields(fields: &Vec<FieldRepr>) -> (r: Result<Vec<Field>, CodecError>)
        ensures
            match r {
                Ok(fs) => fields_decoded(fields@) == Some(fields_view(fs@)),
                Err(e) => e == CodecError::InvalidData && fields_decoded(fields@) is None,
            },
        decreases fields,
    {
        let mut out: Vec<Field> = Vec::new();
        let mut i: usize = 0;
        while i < fields.len()
            invariant
                i <= fields@.len(),
                out@.len() == i,
                forall|j: int|
                    0 <= j < i ==> field_decoded(fields@[j]) == Some((#[trigger] out@[j])@),
            decreases fields@.len() - i,
        {
            match fields[i].to_field() {
                Ok(x) => {
                    out.push(x);
                },
                Err(e) => {
                    assert(field_decoded(fields@[i as int]) is None);
                    return Err(e);
                },
            }
            i = i + 1;
        }
        proof {
            assert forall|j: int| 0 <= j < fields@.len() implies field_decoded(
                #[trigger] fields@[j],
            ) is Some by {
                assert(field_decoded(fields@[j]) == Some(out@[j]@));
            }
            assert(fields_decoded(fields@)->0 =~= fields_view(out@));
        }
        Ok(out)
    }
}

/// Whether `r` is the representation of `s`.
pub open spec fn schema_encodes(r: SchemaRepr, s: SchemaView) -> bool {
    fields_encode(r.fields@, s.fields) && entries_map(r.metadata@) == s.metadata
}

/// The schema that a representation stands for.
pub open spec fn schema_decoded(r: SchemaRepr) -> Option<SchemaView> {
    match fields_decoded(r.fields@) {
        Some(fields) => Some(SchemaView { fields, metadata: entries_map(r.metadata@) }),
        None => None,
    }
}

impl SchemaRepr {
    /// Encodes a schema; refuses exactly the schemas with a field that has no
    /// representation.
    pub fn from_schema(schema: &Schema) -> (r: Result<SchemaRepr, CodecError>)
        ensures
            match r {
                Ok(repr) => fields_encodable(schema@.fields) && schema_encodes(repr, schema@),
                Err(e) => e == CodecError::InvalidData && !fields_encodable(schema@.fields),
            },
    {
        match FieldRepr::from_fields(&schema.fields) {
            Ok(fields) => Ok(SchemaRepr { fields, metadata: schema.metadata.to_entries() }),
            Err(e) => Err(e),
        }
    }

    /// Decodes a schema.
    pub fn to_schema(&self) -> (r: Result<Schema, CodecError>)
        ensures
            match r {
                Ok(s) => schema_decoded(*self) == Some(s@),
                Err(e) => e == CodecError::InvalidData && schema_decoded(*self) is None,
            },
    {
        match FieldRepr::to_fields(&self.fields) {
            Ok(fields) => Ok(Schema { fields, metadata: Metadata::from_entries(&self.metadata) }),
            Err(e) => Err(e),
        }
    }
}

/// A type is decoded from its representation unchanged.
pub proof fn type_round_trip(r: DataTypeRepr, t: TypeView)
    requires
        type_encodes(r, t),
    ensures
        type_decoded(r) == Some(t),
    decreases r,
{
    unit_texts_read_back();
    match (r, t) {
        (DataTypeRepr::List(f), TypeView::List(v)) => field_round_trip(*f, *v),
        (DataTypeRepr::LargeList(f), TypeView::LargeList(v)) => field_round_trip(*f, *v),
        (DataTypeRepr::FixedSizeList(f, n), TypeView::FixedSizeList(v, m)) => field_round_trip(
            *f,
            *v,
        ),
        (DataTypeRepr::Struct(fs), TypeView::Struct(vs)) => fields_round_trip(fs@, vs),
        (DataTypeRepr::Timestamp { unit, timezone }, TypeView::Timestamp(u, tz)) => {
            assert(time_unit_read(time_unit_text(u)) == Some(u));
        },
        (DataTypeRepr::Duration { unit }, TypeView::Duration(u)) => {
            assert(time_unit_read(time_unit_text(u)) == Some(u));
        },
        (DataTypeRepr::Interval { unit }, TypeView::Interval(u)) => {
            assert(interval_unit_read(interval_unit_text(u)) == Some(u));
        },
        _ => {},
    }
}

/// A field is decoded from its representation unchanged.
pub proof fn field_round_trip(r: FieldRepr, f: FieldView)
    requires
        field_encodes(r, f),
    ensures
        field_decoded(r) == Some(f),
    decreases r,
{
    type_round_trip(r.data_type, f.data_type);
}

/// Fields are decoded from their representations unchanged.
pub proof fn fields_round_trip(rs: Seq<FieldRepr>, fs: Seq<FieldView>)
    requires
        fields_encode(rs, fs),
    ensures
        fields_decoded(rs) == Some(fs),
    decreases rs,
{
    assert forall|i: int| 0 <= i < rs.len() implies field_decoded(#[trigger] rs[i]) == Some(
        fs[i],
    ) by {
        field_round_trip(rs[i], fs[i]);
    }
    assert(fields_decoded(rs)->0 =~= fs);
}

/// A schema is decoded from its representation unchanged.
pub proof fn schema_round_trip(r: SchemaRepr, s: SchemaView)
    requires
        schema_encodes(r, s),
    ensures
        schema_decoded(r) == Some(s),
{
    fields_round_trip(r.fields@, s.fields);
}

// ---------------------------------------------------------------------------
// Operators, join types and join modes
// ---------------------------------------------------------------------------

/// Representation of a binary operator.
#[derive(Debug, Clone, Copy, PartialEq, Eq, Structural)]
pub enum OperatorRepr {
    Eq,
    NotEq,
    Lt,
    LtEq,
    Gt,
    GtEq,
    Plus,
    Minus,
    Multiply,
    Divide,
    Modulo,
    And,
    Or,
    IsDistinctFrom,
    IsNotDistinctFrom,
    BitwiseAnd,
    BitwiseOr,
    BitwiseXor,
    BitwiseShiftRight,
    BitwiseShiftLeft,
    RegexMatch,
    RegexIMatch,
    RegexNotMatch,
    RegexNotIMatch,
    LikeMatch,
    ILikeMatch,
    NotLikeMatch,
    NotILikeMatch,
    StringConcat,
    AtArrow,
    ArrowAt,
}

/// The representation of an operator.
pub open spec fn operator_repr(op: Operator) -> OperatorRepr {
    match op {
        Operator::Eq => OperatorRepr::Eq,
        Operator::NotEq => OperatorRepr::NotEq,
        Operator::Lt => OperatorRepr::Lt,
        Operator::LtEq => OperatorRepr::LtEq,
        Operator::Gt => OperatorRepr::Gt,
        Operator::GtEq => OperatorRepr::GtEq,
        Operator::Plus => OperatorRepr::Plus,
        Operator::Minus => OperatorRepr::Minus,
        Operator::Multiply => OperatorRepr::Multiply,
        Operator::Divide => OperatorRepr::Divide,
        Operator::Modulo => OperatorRepr::Modulo,
        Operator::And => OperatorRepr::And,
        Operator::Or => OperatorRepr::Or,
        Operator::IsDistinctFrom => OperatorRepr::IsDistinctFrom,
        Operator::IsNotDistinctFrom => OperatorRepr::IsNotDistinctFrom,
        Operator::BitwiseAnd => OperatorRepr::BitwiseAnd,
        Operator::BitwiseOr => OperatorRepr::BitwiseOr,
        Operator::BitwiseXor => OperatorRepr::BitwiseXor,
        Operator::BitwiseShiftRight => OperatorRepr::BitwiseShiftRight,
        Operator::BitwiseShiftLeft => OperatorRepr::BitwiseShiftLeft,
        Operator::RegexMatch => OperatorRepr::RegexMatch,
        Operator::RegexIMatch => OperatorRepr::RegexIMatch,
        Operator::RegexNotMatch => OperatorRepr::RegexNotMatch,
        Operator::RegexNotIMatch => OperatorRepr::RegexNotIMatch,
        Operator::LikeMatch => OperatorRepr::LikeMatch,
        Operator::ILikeMatch => OperatorRepr::ILikeMatch,
        Operator::NotLikeMatch => OperatorRepr::NotLikeMatch,
        Operator::NotILikeMatch => OperatorRepr::NotILikeMatch,
        Operator::StringConcat => OperatorRepr::StringConcat,
        Operator::AtArrow => OperatorRepr::AtArrow,
        Operator::ArrowAt => OperatorRepr::ArrowAt,
    }
}

/// The operator that a representation stands for.
pub open spec fn operator_of(r: OperatorRepr) -> Operator {
    match r {
        OperatorRepr::Eq => Operator::Eq,
        OperatorRepr::NotEq => Operator::NotEq,
        OperatorRepr::Lt => Operator::Lt,
        OperatorRepr::LtEq => Operator::LtEq,
        OperatorRepr::Gt => Operator::Gt,
        OperatorRepr::GtEq => Operator::GtEq,
        OperatorRepr::Plus => Operator::Plus,
        OperatorRepr::Minus => Operator::Minus,
        OperatorRepr::Multiply => Operator::Multiply,
        OperatorRepr::Divide => Operator::Divide,
        OperatorRepr::Modulo => Operator::Modulo,
        OperatorRepr::And => Operator::And,
        OperatorRepr::Or => Operator::Or,
        OperatorRepr::IsDistinctFrom => Operator::IsDistinctFrom,
        OperatorRepr::IsNotDistinctFrom => Operator::IsNotDistinctFrom,
        OperatorRepr::BitwiseAnd => Operator::BitwiseAnd,
        OperatorRepr::BitwiseOr => Operator::BitwiseOr,
        OperatorRepr::BitwiseXor => Operator::BitwiseXor,
        OperatorRepr::BitwiseShiftRight => Operator::BitwiseShiftRight,
        OperatorRepr::BitwiseShiftLeft => Operator::BitwiseShiftLeft,
        OperatorRepr::RegexMatch => Operator::RegexMatch,
        OperatorRepr::RegexIMatch => Operator::RegexIMatch,
        OperatorRepr::RegexNotMatch => Operator::RegexNotMatch,
        OperatorRepr::RegexNotIMatch => Operator::RegexNotIMatch,
        OperatorRepr::LikeMatch => Operator::LikeMatch,
        OperatorRepr::ILikeMatch => Operator::ILikeMatch,
        OperatorRepr::NotLikeMatch => Operator::NotLikeMatch,
        OperatorRepr::NotILikeMatch => Operator::NotILikeMatch,
        OperatorRepr::StringConcat => Operator::StringConcat,
        OperatorRepr::AtArrow => Operator::AtArrow,
        OperatorRepr::ArrowAt => Operator::ArrowAt,
    }
}

/// Encoding an operator and decoding it gives the operator back, and the
/// other way round.
pub proof fn operator_round_trip(op: Operator, r: OperatorRepr)
    ensures
        operator_of(operator_repr(op)) == op,
        operator_repr(operator_of(r)) == r,
{
}

impl OperatorRepr {
    /// Encodes an operator.
    pub fn from_operator(op: Operator) -> (r: OperatorRepr)
        ensures
            r == operator_repr(op),
    {
        match op {
            Operator::Eq => OperatorRepr::Eq,
            Operator::NotEq => OperatorRepr::NotEq,
            Operator::Lt => OperatorRepr::Lt,
            Operator::LtEq => OperatorRepr::LtEq,
            Operator::Gt => OperatorRepr::Gt,
            Operator::GtEq => OperatorRepr::GtEq,
            Operator::Plus => OperatorRepr::Plus,
            Operator::Minus => OperatorRepr::Minus,
            Operator::Multiply => OperatorRepr::Multiply,
            Operator::Divide => OperatorRepr::Divide,
            Operator::Modulo => OperatorRepr::Modulo,
            Operator::And => OperatorRepr::And,
            Operator::Or => OperatorRepr::Or,
            Operator::IsDistinctFrom => OperatorRepr::IsDistinctFrom,
            Operator::IsNotDistinctFrom => OperatorRepr::IsNotDistinctFrom,
            Operator::BitwiseAnd => OperatorRepr::BitwiseAnd,
            Operator::BitwiseOr => OperatorRepr::BitwiseOr,
            Operator::BitwiseXor => OperatorRepr::BitwiseXor,
            Operator::BitwiseShiftRight => OperatorRepr::BitwiseShiftRight,
            Operator::BitwiseShiftLeft => OperatorRepr::BitwiseShiftLeft,
            Operator::RegexMatch => OperatorRepr::RegexMatch,
            Operator::RegexIMatch => OperatorRepr::RegexIMatch,
            Operator::RegexNotMatch => OperatorRepr::RegexNotMatch,
            Operator::RegexNotIMatch => OperatorRepr::RegexNotIMatch,
            Operator::LikeMatch => OperatorRepr::LikeMatch,
            Operator::ILikeMatch => OperatorRepr::ILikeMatch,
            Operator::NotLikeMatch => OperatorRepr::NotLikeMatch,
            Operator::NotILikeMatch => OperatorRepr::NotILikeMatch,
            Operator::StringConcat => OperatorRepr::StringConcat,
            Operator::AtArrow => OperatorRepr::AtArrow,
            Operator::ArrowAt => OperatorRepr::ArrowAt,
        }
    }

    /// Decodes an operator.
    pub fn to_operator(&self) -> (r: Operator)
        ensures
            r == operator_of(*self),
    {
        match self {
            OperatorRepr::Eq => Operator::Eq,
            OperatorRepr::NotEq => Operator::NotEq,
            OperatorRepr::Lt => Operator::Lt,
            OperatorRepr::LtEq => Operator::LtEq,
            OperatorRepr::Gt => Operator::Gt,
            OperatorRepr::GtEq => Operator::GtEq,
            OperatorRepr::Plus => Operator::Plus,
            OperatorRepr::Minus => Operator::Minus,
            OperatorRepr::Multiply => Operator::Multiply,
            OperatorRepr::Divide => Operator::Divide,
            OperatorRepr::Modulo => Operator::Modulo,
            OperatorRepr::And => Operator::And,
            OperatorRepr::Or => Operator::Or,
            OperatorRepr::IsDistinctFrom => Operator::IsDistinctFrom,
            OperatorRepr::IsNotDistinctFrom => Operator::IsNotDistinctFrom,
            OperatorRepr::BitwiseAnd => Operator::BitwiseAnd,
            OperatorRepr::BitwiseOr => Operator::BitwiseOr,
            OperatorRepr::BitwiseXor => Operator::BitwiseXor,
            OperatorRepr::BitwiseShiftRight => Operator::BitwiseShiftRight,
            OperatorRepr::BitwiseShiftLeft => Operator::BitwiseShiftLeft,
            OperatorRepr::RegexMatch => Operator::RegexMatch,
            OperatorRepr::RegexIMatch => Operator::RegexIMatch,
            OperatorRepr::RegexNotMatch => Operator::RegexNotMatch,
            OperatorRepr::RegexNotIMatch => Operator::RegexNotIMatch,
            OperatorRepr::LikeMatch => Operator::LikeMatch,
            OperatorRepr::ILikeMatch => Operator::ILikeMatch,
            OperatorRepr::NotLikeMatch => Operator::NotLikeMatch,
            OperatorRepr::NotILikeMatch => Operator::NotILikeMatch,
            OperatorRepr::StringConcat => Operator::StringConcat,
            OperatorRepr::AtArrow => Operator::AtArrow,
            OperatorRepr::ArrowAt => Operator::ArrowAt,
        }
    }
}

/// Representation of a join type.
#[derive(Debug, Clone, Copy, PartialEq, Eq, Structural)]
pub enum JoinTypeRepr {
    Inner,
    Left,
    Right,
    Full,
    LeftSemi,
    RightSemi,
    LeftAnti,
    RightAnti,
    LeftMark,
}

/// The representation of a join type.
pub open spec fn join_type_repr(t: JoinType) -> JoinTypeRepr {
    match t {
        JoinType::Inner => JoinTypeRepr::Inner,
        JoinType::Left => JoinTypeRepr::Left,
        JoinType::Right => JoinTypeRepr::Right,
        JoinType::Full => JoinTypeRepr::Full,
        JoinType::LeftSemi => JoinTypeRepr::LeftSemi,
        JoinType::RightSemi => JoinTypeRepr::RightSemi,
        JoinType::LeftAnti => JoinTypeRepr::LeftAnti,
        JoinType::RightAnti => JoinTypeRepr::RightAnti,
        JoinType::LeftMark => JoinTypeRepr::LeftMark,
    }
}

/// The join type that a representation stands for.
pub open spec fn join_type_of(r: JoinTypeRepr) -> JoinType {
    match r {
        JoinTypeRepr::Inner => JoinType::Inner,
        JoinTypeRepr::Left => JoinType::Left,
        JoinTypeRepr::Right => JoinType::Right,
        JoinTypeRepr::Full => JoinType::Full,
        JoinTypeRepr::LeftSemi => JoinType::LeftSemi,
        JoinTypeRepr::RightSemi => JoinType::RightSemi,
        JoinTypeRepr::LeftAnti => JoinType::LeftAnti,
        JoinTypeRepr::RightAnti => JoinType::RightAnti,
        JoinTypeRepr::LeftMark => JoinType::LeftMark,
    }
}

/// Encoding a join type and decoding it gives the join type back, and the
/// other way round.
pub proof fn join_type_round_trip(t: JoinType, r: JoinTypeRepr)
    ensures
        join_type_of(join_type_repr(t)) == t,
        join_type_repr(join_type_of(r)) == r,
{
}

impl JoinTypeRepr {
    /// Encodes a join type.
    pub fn from_join_type(join_type: JoinType) -> (r: JoinTypeRepr)
        ensures
            r == join_type_repr(join_type),
    {
        match join_type {
            JoinType::Inner => JoinTypeRepr::Inner,
            JoinType::Left => JoinTypeRepr::Left,
            JoinType::Right => JoinTypeRepr::Right,
            JoinType::Full => JoinTypeRepr::Full,
            JoinType::LeftSemi => JoinTypeRepr::LeftSemi,
            JoinType::RightSemi => JoinTypeRepr::RightSemi,
            JoinType::LeftAnti => JoinTypeRepr::LeftAnti,
            JoinType::RightAnti => JoinTypeRepr::RightAnti,
            JoinType::LeftMark => JoinTypeRepr::LeftMark,
        }
    }

    /// Decodes a join type.
    pub fn to_join_type(&self) -> (r: JoinType)
        ensures
            r == join_type_of(*self),
    {
        match self {
            JoinTypeRepr::Inner => JoinType::Inner,
            JoinTypeRepr::Left => JoinType::Left,
            JoinTypeRepr::Right => JoinType::Right,
            JoinTypeRepr::Full => JoinType::Full,
            JoinTypeRepr::LeftSemi => JoinType::LeftSemi,
            JoinTypeRepr::RightSemi => JoinType::RightSemi,
            JoinTypeRepr::LeftAnti => JoinType::LeftAnti,
            JoinTypeRepr::RightAnti => JoinType::RightAnti,
            JoinTypeRepr::LeftMark => JoinType::LeftMark,
        }
    }
}

/// Representation of a join constraint.
#[derive(Debug, Clone, Copy, PartialEq, Eq, Structural)]
pub enum JoinConstraintRepr {
    On,
    Using,
}

/// The representation of a join constraint.
pub open spec fn join_constraint_repr(c: JoinConstraint) -> JoinConstraintRepr {
    match c {
        JoinConstraint::On => JoinConstraintRepr::On,
        JoinConstraint::Using => JoinConstraintRepr::Using,
    }
}

/// The join constraint that a representation stands for.
pub open spec fn join_constraint_of(r: JoinConstraintRepr) -> JoinConstraint {
    match r {
        JoinConstraintRepr::On => JoinConstraint::On,
        JoinConstraintRepr::Using => JoinConstraint::Using,
    }
}

/// Encoding a join constraint and decoding it gives the constraint back, and
/// the other way round.
pub proof fn join_constraint_round_trip(c: JoinConstraint, r: JoinConstraintRepr)
    ensures
        join_constraint_of(join_constraint_repr(c)) == c,
        join_constraint_repr(join_constraint_of(r)) == r,
{
}

impl JoinConstraintRepr {
    /// Encodes a join constraint.
    pub fn from_constraint(constraint: JoinConstraint) -> (r: JoinConstraintRepr)
        ensures
            r == join_constraint_repr(constraint),
    {
        match constraint {
            JoinConstraint::On => JoinConstraintRepr::On,
            JoinConstraint::Using => JoinConstraintRepr::Using,
        }
    }

    /// Decodes a join constraint.
    pub fn to_join_constraint(&self) -> (r: JoinConstraint)
        ensures
            r == join_constraint_of(*self),
    {
        match self {
            JoinConstraintRepr::On => JoinConstraint::On,
            JoinConstraintRepr::Using => JoinConstraint::Using,
        }
    }
}

/// Representation of a join mode.
#[derive(Debug, Clone, Copy, PartialEq, Eq, Structural)]
pub enum JoinModeRepr {
    OneToMany,
    ManyToOne,
    OneToOne,
    ManyToMany,
}

/// The representation of a join mode.
pub open spec fn join_mode_repr(m: JoinMode) -> JoinModeRepr {
    match m {
        JoinMode::ONE_TO_MANY => JoinModeRepr::OneToMany,
        JoinMode::MANY_TO_ONE => JoinModeRepr::ManyToOne,
        JoinMode::ONE_TO_ONE => JoinModeRepr::OneToOne,
        JoinMode::MANY_TO_MANY => JoinModeRepr::ManyToMany,
    }
}

/// The join mode that a representation stands for.
pub open spec fn join_mode_of(r: JoinModeRepr) -> JoinMode {
    match r {
        JoinModeRepr::OneToMany => JoinMode::ONE_TO_MANY,
        JoinModeRepr::ManyToOne => JoinMode::MANY_TO_ONE,
        JoinModeRepr::OneToOne => JoinMode::ONE_TO_ONE,
        JoinModeRepr::ManyToMany => JoinMode::MANY_TO_MANY,
    }
}

/// Encoding a join mode and decoding it gives the mode back, and the other
/// way round.
pub proof fn join_mode_round_trip(m: JoinMode, r: JoinModeRepr)
    ensures
        join_mode_of(join_mode_repr(m)) == m,
        join_mode_repr(join_mode_of(r)) == r,
{
}

impl JoinModeRepr {
    /// Encodes a join mode.
    pub fn from_join_mode(mode: JoinMode) -> (r: JoinModeRepr)
        ensures
            r == join_mode_repr(mode),
    {
        match mode {
            JoinMode::ONE_TO_MANY => JoinModeRepr::OneToMany,
            JoinMode::MANY_TO_ONE => JoinModeRepr::ManyToOne,
            JoinMode::ONE_TO_ONE => JoinModeRepr::OneToOne,
            JoinMode::MANY_TO_MANY => JoinModeRepr::ManyToMany,
        }
    }

    /// Decodes a join mode.
    pub fn to_join_mode(&self) -> (r: JoinMode)
        ensures
            r == join_mode_of(*self),
    {
        match self {
            JoinModeRepr::OneToMany => JoinMode::ONE_TO_MANY,
            JoinModeRepr::ManyToOne => JoinMode::MANY_TO_ONE,
            JoinModeRepr::OneToOne => JoinMode::ONE_TO_ONE,
            JoinModeRepr::ManyToMany => JoinMode::MANY_TO_MANY,
        }
    }
}

/// Every operator is written under its own name and read under it.
pub proof fn operators_keep_their_name(op: Operator, r: OperatorRepr)
    ensures
        op is Eq <==> operator_repr(op) is Eq,
        op is NotEq <==> operator_repr(op) is NotEq,
        op is Lt <==> operator_repr(op) is Lt,
        op is LtEq <==> operator_repr(op) is LtEq,
        op is Gt <==> operator_repr(op) is Gt,
        op is GtEq <==> operator_repr(op) is GtEq,
        op is Plus <==> operator_repr(op) is Plus,
        op is Minus <==> operator_repr(op) is Minus,
        op is Multiply <==> operator_repr(op) is Multiply,
        op is Divide <==> operator_repr(op) is Divide,
        op is Modulo <==> operator_repr(op) is Modulo,
        op is And <==> operator_repr(op) is And,
        op is Or <==> operator_repr(op) is Or,
        op is IsDistinctFrom <==> operator_repr(op) is IsDistinctFrom,
        op is IsNotDistinctFrom <==> operator_repr(op) is IsNotDistinctFrom,
        op is BitwiseAnd <==> operator_repr(op) is BitwiseAnd,
        op is BitwiseOr <==> operator_repr(op) is BitwiseOr,
        op is BitwiseXor <==> operator_repr(op) is BitwiseXor,
        op is BitwiseShiftRight <==> operator_repr(op) is BitwiseShiftRight,
        op is BitwiseShiftLeft <==> operator_repr(op) is BitwiseShiftLeft,
        op is RegexMatch <==> operator_repr(op) is RegexMatch,
        op is RegexIMatch <==> operator_repr(op) is RegexIMatch,
        op is RegexNotMatch <==> operator_repr(op) is RegexNotMatch,
        op is RegexNotIMatch <==> operator_repr(op) is RegexNotIMatch,
        op is LikeMatch <==> operator_repr(op) is LikeMatch,
        op is ILikeMatch <==> operator_repr(op) is ILikeMatch,
        op is NotLikeMatch <==> operator_repr(op) is NotLikeMatch,
        op is NotILikeMatch <==> operator_repr(op) is NotILikeMatch,
        op is StringConcat <==> operator_repr(op) is StringConcat,
        op is AtArrow <==> operator_repr(op) is AtArrow,
        op is ArrowAt <==> operator_repr(op) is ArrowAt,
        r is Eq <==> operator_of(r) is Eq,
        r is NotEq <==> operator_of(r) is NotEq,
        r is Lt <==> operator_of(r) is Lt,
        r is LtEq <==> operator_of(r) is LtEq,
        r is Gt <==> operator_of(r) is Gt,
        r is GtEq <==> operator_of(r) is GtEq,
        r is Plus <==> operator_of(r) is Plus,
        r is Minus <==> operator_of(r) is Minus,
        r is Multiply <==> operator_of(r) is Multiply,
        r is Divide <==> operator_of(r) is Divide,
        r is Modulo <==> operator_of(r) is Modulo,
        r is And <==> operator_of(r) is And,
        r is Or <==> operator_of(r) is Or,
        r is IsDistinctFrom <==> operator_of(r) is IsDistinctFrom,
        r is IsNotDistinctFrom <==> operator_of(r) is IsNotDistinctFrom,
        r is BitwiseAnd <==> operator_of(r) is BitwiseAnd,
        r is BitwiseOr <==> operator_of(r) is BitwiseOr,
        r is BitwiseXor <==> operator_of(r) is BitwiseXor,
        r is BitwiseShiftRight <==> operator_of(r) is BitwiseShiftRight,
        r is BitwiseShiftLeft <==> operator_of(r) is BitwiseShiftLeft,
        r is RegexMatch <==> operator_of(r) is RegexMatch,
        r is RegexIMatch <==> operator_of(r) is RegexIMatch,
        r is RegexNotMatch <==> operator_of(r) is RegexNotMatch,
        r is RegexNotIMatch <==> operator_of(r) is RegexNotIMatch,
        r is LikeMatch <==> operator_of(r) is LikeMatch,
        r is ILikeMatch <==> operator_of(r) is ILikeMatch,
        r is NotLikeMatch <==> operator_of(r) is NotLikeMatch,
        r is NotILikeMatch <==> operator_of(r) is NotILikeMatch,
        r is StringConcat <==> operator_of(r) is StringConcat,
        r is AtArrow <==> operator_of(r) is AtArrow,
        r is ArrowAt <==> operator_of(r) is ArrowAt,
{
}

/// Every join type is written under its own name and read under it.
pub proof fn join_types_keep_their_name(t: JoinType, r: JoinTypeRepr)
    ensures
        t is Inner <==> join_type_repr(t) is Inner,
        t is Left <==> join_type_repr(t) is Left,
        t is Right <==> join_type_repr(t) is Right,
        t is Full <==> join_type_repr(t) is Full,
        t is LeftSemi <==> join_type_repr(t) is LeftSemi,
        t is RightSemi <==> join_type_repr(t) is RightSemi,
        t is LeftAnti <==> join_type_repr(t) is LeftAnti,
        t is RightAnti <==> join_type_repr(t) is RightAnti,
        t is LeftMark <==> join_type_repr(t) is LeftMark,
        r is Inner <==> join_type_of(r) is Inner,
        r is Left <==> join_type_of(r) is Left,
        r is Right <==> join_type_of(r) is Right,
        r is Full <==> join_type_of(r) is Full,
        r is LeftSemi <==> join_type_of(r) is LeftSemi,
        r is RightSemi <==> join_type_of(r) is RightSemi,
        r is LeftAnti <==> join_type_of(r) is LeftAnti,
        r is RightAnti <==> join_type_of(r) is RightAnti,
        r is LeftMark <==> join_type_of(r) is LeftMark,
{
}

/// Join constraints and join modes are written under their own names and read
/// under them.
pub proof fn constraints_and_modes_keep_their_name(
    c: JoinConstraint,
    cr: JoinConstraintRepr,
    m: JoinMode,
    mr: JoinModeRepr,
)
    ensures
        c is On <==> join_constraint_repr(c) is On,
        cr is On <==> join_constraint_of(cr) is On,
        c is Using <==> join_constraint_repr(c) is Using,
        cr is Using <==> join_constraint_of(cr) is Using,
        m is ONE_TO_MANY <==> join_mode_repr(m) is OneToMany,
        mr is OneToMany <==> join_mode_of(mr) is ONE_TO_MANY,
        m is MANY_TO_ONE <==> join_mode_repr(m) is ManyToOne,
        mr is ManyToOne <==> join_mode_of(mr) is MANY_TO_ONE,
        m is ONE_TO_ONE <==> join_mode_repr(m) is OneToOne,
        mr is OneToOne <==> join_mode_of(mr) is ONE_TO_ONE,
        m is MANY_TO_MANY <==> join_mode_repr(m) is ManyToMany,
        mr is ManyToMany <==> join_mode_of(mr) is MANY_TO_MANY,
{
}

/// A type is written under its own name, with its own precision, size, unit
/// and zone.
pub proof fn types_keep_their_name(r: DataTypeRepr, t: TypeView)
    requires
        type_encodes(r, t),
    ensures
        t is Null <==> r is Null,
        t is Boolean <==> r is Boolean,
        t is Int8 <==> r is Int8,
        t is Int16 <==> r is Int16,
        t is Int32 <==> r is Int32,
        t is Int64 <==> r is Int64,
        t is UInt8 <==> r is UInt8,
        t is UInt16 <==> r is UInt16,
        t is UInt32 <==> r is UInt32,
        t is UInt64 <==> r is UInt64,
        t is Float32 <==> r is Float32,
        t is Float64 <==> r is Float64,
        t is Decimal128 <==> r is Decimal128,
        t is Decimal256 <==> r is Decimal256,
        t is Utf8 <==> r is Utf8,
        t is Utf8View <==> r is Utf8View,
        t is LargeUtf8 <==> r is LargeUtf8,
        t is Binary <==> r is Binary,
        t is LargeBinary <==> r is LargeBinary,
        t is FixedSizeBinary <==> r is FixedSizeBinary,
        t is Date32 <==> r is Date32,
        t is Date64 <==> r is Date64,
        t is Timestamp <==> r is Timestamp,
        t is Duration <==> r is Duration,
        t is Interval <==> r is Interval,
        t is List <==> r is List,
        t is LargeList <==> r is LargeList,
        t is FixedSizeList <==> r is FixedSizeList,
        t is Struct <==> r is Struct,
        t == TypeView::Time32(TimeUnit::Second) <==> r is Time32Second,
        t == TypeView::Time32(TimeUnit::Millisecond) <==> r is Time32Millisecond,
        t == TypeView::Time64(TimeUnit::Microsecond) <==> r is Time64Microsecond,
        t == TypeView::Time64(TimeUnit::Nanosecond) <==> r is Time64Nanosecond,
        t matches TypeView::Decimal128(p, s) ==> r == (DataTypeRepr::Decimal128 {
            precision: p,
            scale: s,
        }),
        t matches TypeView::Decimal256(p, s) ==> r == (DataTypeRepr::Decimal256 {
            precision: p,
            scale: s,
        }),
        t matches TypeView::FixedSizeBinary(n) ==> r == DataTypeRepr::FixedSizeBinary(n),
        t matches TypeView::FixedSizeList(_, n) ==> r matches DataTypeRepr::FixedSizeList(_, m) && m
            == n,
        t matches TypeView::Timestamp(_, tz) ==> r matches DataTypeRepr::Timestamp { timezone, .. }
            && text_opt(timezone) == tz,
        t matches TypeView::Struct(fs) ==> r matches DataTypeRepr::Struct(rs) && rs@.len()
            == fs.len() && forall|i: int|
            0 <= i < fs.len() ==> (#[trigger] rs@[i]).name@ == fs[i].name && rs@[i].nullable
                == fs[i].nullable,
{
    match (r, t) {
        (DataTypeRepr::Struct(rs), TypeView::Struct(fs)) => {
            reveal_with_fuel(type_encodes, 2);
            reveal_with_fuel(fields_encode, 2);
            reveal_with_fuel(field_encodes, 2);
            assert(fields_encode(rs@, fs));
            assert forall|i: int| 0 <= i < fs.len() implies (#[trigger] rs@[i]).name@ == fs[i].name
                && rs@[i].nullable == fs[i].nullable by {
                assert(field_encodes(rs@[i], fs[i]));
            }
        },
        _ => {},
    }
}

/// Units are written in full, each as its own name.
pub proof fn units_are_written_as_their_names(u: TimeUnit, v: IntervalUnit)
    ensures
        u is Second ==> time_unit_text(u) == "Second"@,
        u is Millisecond ==> time_unit_text(u) == "Millisecond"@,
        u is Microsecond ==> time_unit_text(u) == "Microsecond"@,
        u is Nanosecond ==> time_unit_text(u) == "Nanosecond"@,
        v is YearMonth ==> interval_unit_text(v) == "YearMonth"@,
        v is DayTime ==> interval_unit_text(v) == "DayTime"@,
        v is MonthDayNano ==> interval_unit_text(v) == "MonthDayNano"@,
{
}

/// A function is known under the first entry of its name.
pub proof fn functions_are_found_under_their_name(
    list: Seq<(String, String)>,
    name: Seq<char>,
    i: int,
)
    requires
        0 <= i < list.len(),
        list[i].0@ == name,
        forall|j: int| 0 <= j < i ==> (#[trigger] list[j]).0@ != name,
    ensures
        looked_up(list, name) == Some(list[i].1@),
    decreases i,
{
    if i > 0 {
        let rest = list.skip(1);
        assert(list[0].0@ != name);
        assert forall|j: int| 0 <= j < i - 1 implies (#[trigger] rest[j]).0@ != name by {
            assert(rest[j] == list[j + 1]);
        }
        functions_are_found_under_their_name(rest, name, i - 1);
    }
}

} // verus!
