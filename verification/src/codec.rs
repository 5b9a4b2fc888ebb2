//! Representations of constants, expressions and plans.
use crate::codec_types::{
    fields_encodable, join_constraint_of, join_constraint_repr, join_constraint_round_trip,
    join_type_of, join_type_repr, join_type_round_trip, look_up, looked_up, operator_of,
    operator_repr, operator_round_trip, read_reference, reference_from_text, schema_decoded,
    schema_encodes, schema_round_trip, type_decoded, type_encodable, type_encodes, type_round_trip,
    wide_from_text, wide_parsed, wide_text, wide_to_text, CodecError, DataTypeRepr,
    FunctionRegistry, JoinConstraintRepr, JoinTypeRepr, OperatorRepr, SchemaRepr,
};
use crate::plan::{
    bytes_opt, dotted, exprs_view, indices_opt, pairs_view, ref_opt, sorts_view, Column, ColumnView,
    Expr, ExprView, LogicalPlan, PlanView, ResultCheckMode, ScalarValue, ScalarView, SortExpr,
    SortView, Subquery, SubqueryView, TableReference,
};
use crate::plan_copy::{copy_bytes_opt, copy_indices_opt};
use crate::schema::{copy_text_opt, text_opt};
use vstd::prelude::*;

verus! {

/// Representation of a constant.
#[derive(Debug)]
pub enum ScalarValueRepr {
    Null,
    Boolean(Option<bool>),
    Float32(Option<u32>),
    Float64(Option<u64>),
    Decimal128(Option<i128>, u8, i8),
    Decimal256(Option<String>, u8, i8),
    Int8(Option<i8>),
    Int16(Option<i16>),
    Int32(Option<i32>),
    Int64(Option<i64>),
    UInt8(Option<u8>),
    UInt16(Option<u16>),
    UInt32(Option<u32>),
    UInt64(Option<u64>),
    Utf8(Option<String>),
    Utf8View(Option<String>),
    LargeUtf8(Option<String>),
    Binary(Option<Vec<u8>>),
    BinaryView(Option<Vec<u8>>),
    FixedSizeBinary(i32, Option<Vec<u8>>),
    LargeBinary(Option<Vec<u8>>),
    Date32(Option<i32>),
    Date64(Option<i64>),
    Time32Second(Option<i32>),
    Time32Millisecond(Option<i32>),
    Time64Microsecond(Option<i64>),
    Time64Nanosecond(Option<i64>),
    TimestampSecond(Option<i64>, Option<String>),
    TimestampMillisecond(Option<i64>, Option<String>),
    TimestampMicrosecond(Option<i64>, Option<String>),
    TimestampNanosecond(Option<i64>, Option<String>),
    IntervalYearMonth(Option<i32>),
    IntervalDayTime(Option<(i32, i32)>),
    IntervalMonthDayNano(Option<(i32, i32, i64)>),
    DurationSecond(Option<i64>),
    DurationMillisecond(Option<i64>),
    DurationMicrosecond(Option<i64>),
    DurationNanosecond(Option<i64>),
}

/// Whether a constant has a representation.
pub open spec fn scalar_encodable(v: ScalarView) -> bool {
    !(v is Nested)
}

/// Whether `r` is the representation of `v`.
pub open spec fn scalar_encodes(r: ScalarValueRepr, v: ScalarView) -> bool {
    match (r, v) {
        (ScalarValueRepr::Null, ScalarView::Null) => true,
        (ScalarValueRepr::Boolean(a), ScalarView::Boolean(b)) => a == b,
        (ScalarValueRepr::Float32(a), ScalarView::Float32(b)) => a == b,
        (ScalarValueRepr::Float64(a), ScalarView::Float64(b)) => a == b,
        (ScalarValueRepr::Decimal128(a, p, s), ScalarView::Decimal128(b, q, t)) => a == b && p == q
            && s == t,
        (ScalarValueRepr::Decimal256(a, p, s), ScalarView::Decimal256(b, q, t)) => p == q && s == t
            && match (a, b) {
            (Some(x), Some(y)) => x@ == wide_text(y.0, y.1) && wide_parsed(x@) == Some(y),
            (None, None) => true,
            _ => false,
        },
        (ScalarValueRepr::Int8(a), ScalarView::Int8(b)) => a == b,
        (ScalarValueRepr::Int16(a), ScalarView::Int16(b)) => a == b,
        (ScalarValueRepr::Int32(a), ScalarView::Int32(b)) => a == b,
        (ScalarValueRepr::Int64(a), ScalarView::Int64(b)) => a == b,
        (ScalarValueRepr::UInt8(a), ScalarView::UInt8(b)) => a == b,
        (ScalarValueRepr::UInt16(a), ScalarView::UInt16(b)) => a == b,
        (ScalarValueRepr::UInt32(a), ScalarView::UInt32(b)) => a == b,
        (ScalarValueRepr::UInt64(a), ScalarView::UInt64(b)) => a == b,
        (ScalarValueRepr::Utf8(a), ScalarView::Utf8(b)) => text_opt(a) == b,
        (ScalarValueRepr::Utf8View(a), ScalarView::Utf8View(b)) => text_opt(a) == b,
        (ScalarValueRepr::LargeUtf8(a), ScalarView::LargeUtf8(b)) => text_opt(a) == b,
        (ScalarValueRepr::Binary(a), ScalarView::Binary(b)) => bytes_opt(a) == b,
        (ScalarValueRepr::BinaryView(a), ScalarView::BinaryView(b)) => bytes_opt(a) == b,
        (ScalarValueRepr::FixedSizeBinary(n, a), ScalarView::FixedSizeBinary(m, b)) => n == m
            && bytes_opt(a) == b,
        (ScalarValueRepr::LargeBinary(a), ScalarView::LargeBinary(b)) => bytes_opt(a) == b,
        (ScalarValueRepr::Date32(a), ScalarView::Date32(b)) => a == b,
        (ScalarValueRepr::Date64(a), ScalarView::Date64(b)) => a == b,
        (ScalarValueRepr::Time32Second(a), ScalarView::Time32Second(b)) => a == b,
        (ScalarValueRepr::Time32Millisecond(a), ScalarView::Time32Millisecond(b)) => a == b,
        (ScalarValueRepr::Time64Microsecond(a), ScalarView::Time64Microsecond(b)) => a == b,
        (ScalarValueRepr::Time64Nanosecond(a), ScalarView::Time64Nanosecond(b)) => a == b,
        (ScalarValueRepr::TimestampSecond(a, t), ScalarView::TimestampSecond(b, u)) => a == b && text_opt(t)
            == u,
        (ScalarValueRepr::TimestampMillisecond(a, t), ScalarView::TimestampMillisecond(b, u)) => a == b && text_opt(t)
            == u,
        (ScalarValueRepr::TimestampMicrosecond(a, t), ScalarView::TimestampMicrosecond(b, u)) => a == b && text_opt(t)
            == u,
        (ScalarValueRepr::TimestampNanosecond(a, t), ScalarView::TimestampNanosecond(b, u)) => a == b && text_opt(t)
            == u,
        (ScalarValueRepr::IntervalYearMonth(a), ScalarView::IntervalYearMonth(b)) => a == b,
        (ScalarValueRepr::IntervalDayTime(a), ScalarView::IntervalDayTime(b)) => a == b,
        (ScalarValueRepr::IntervalMonthDayNano(a), ScalarView::IntervalMonthDayNano(b)) => a == b,
        (ScalarValueRepr::DurationSecond(a), ScalarView::DurationSecond(b)) => a == b,
        (ScalarValueRepr::DurationMillisecond(a), ScalarView::DurationMillisecond(b)) => a == b,
        (ScalarValueRepr::DurationMicrosecond(a), ScalarView::DurationMicrosecond(b)) => a == b,
        (ScalarValueRepr::DurationNanosecond(a), ScalarView::DurationNanosecond(b)) => a == b,
        _ => false,
    }
}

/// The constant that a representation stands for.
pub open spec fn scalar_decoded(r: ScalarValueRepr) -> Option<ScalarView> {
    match r {
        ScalarValueRepr::Null => Some(ScalarView::Null),
        ScalarValueRepr::Boolean(a) => Some(ScalarView::Boolean(a)),
        ScalarValueRepr::Float32(a) => Some(ScalarView::Float32(a)),
        ScalarValueRepr::Float64(a) => Some(ScalarView::Float64(a)),
        ScalarValueRepr::Decimal128(a, p, s) => Some(ScalarView::Decimal128(a, p, s)),
        ScalarValueRepr::Decimal256(a, p, s) => match a {
            Some(x) => match wide_parsed(x@) {
                Some(y) => Some(ScalarView::Decimal256(Some(y), p, s)),
                None => None,
            },
            None => Some(ScalarView::Decimal256(None, p, s)),
        },
        ScalarValueRepr::Int8(a) => Some(ScalarView::Int8(a)),
        ScalarValueRepr::Int16(a) => Some(ScalarView::Int16(a)),
        ScalarValueRepr::Int32(a) => Some(ScalarView::Int32(a)),
        ScalarValueRepr::Int64(a) => Some(ScalarView::Int64(a)),
        ScalarValueRepr::UInt8(a) => Some(ScalarView::UInt8(a)),
        ScalarValueRepr::UInt16(a) => Some(ScalarView::UInt16(a)),
        ScalarValueRepr::UInt32(a) => Some(ScalarView::UInt32(a)),
        ScalarValueRepr::UInt64(a) => Some(ScalarView::UInt64(a)),
        ScalarValueRepr::Utf8(a) => Some(ScalarView::Utf8(text_opt(a))),
        ScalarValueRepr::Utf8View(a) => Some(ScalarView::Utf8View(text_opt(a))),
        ScalarValueRepr::LargeUtf8(a) => Some(ScalarView::LargeUtf8(text_opt(a))),
        ScalarValueRepr::Binary(a) => Some(ScalarView::Binary(bytes_opt(a))),
        ScalarValueRepr::BinaryView(a) => Some(ScalarView::BinaryView(bytes_opt(a))),
        ScalarValueRepr::FixedSizeBinary(n, a) => Some(
            ScalarView::FixedSizeBinary(n, bytes_opt(a)),
        ),
        ScalarValueRepr::LargeBinary(a) => Some(ScalarView::LargeBinary(bytes_opt(a))),
        ScalarValueRepr::Date32(a) => Some(ScalarView::Date32(a)),
        ScalarValueRepr::Date64(a) => Some(ScalarView::Date64(a)),
        ScalarValueRepr::Time32Second(a) => Some(ScalarView::Time32Second(a)),
        ScalarValueRepr::Time32Millisecond(a) => Some(ScalarView::Time32Millisecond(a)),
        ScalarValueRepr::Time64Microsecond(a) => Some(ScalarView::Time64Microsecond(a)),
        ScalarValueRepr::Time64Nanosecond(a) => Some(ScalarView::Time64Nanosecond(a)),
        ScalarValueRepr::TimestampSecond(a, t) => Some(ScalarView::TimestampSecond(a, text_opt(t))),
        ScalarValueRepr::TimestampMillisecond(a, t) => Some(ScalarView::TimestampMillisecond(a, text_opt(t))),
        ScalarValueRepr::TimestampMicrosecond(a, t) => Some(ScalarView::TimestampMicrosecond(a, text_opt(t))),
        ScalarValueRepr::TimestampNanosecond(a, t) => Some(ScalarView::TimestampNanosecond(a, text_opt(t))),
        ScalarValueRepr::IntervalYearMonth(a) => Some(ScalarView::IntervalYearMonth(a)),
        ScalarValueRepr::IntervalDayTime(a) => Some(ScalarView::IntervalDayTime(a)),
        ScalarValueRepr::IntervalMonthDayNano(a) => Some(ScalarView::IntervalMonthDayNano(a)),
        ScalarValueRepr::DurationSecond(a) => Some(ScalarView::DurationSecond(a)),
        ScalarValueRepr::DurationMillisecond(a) => Some(ScalarView::DurationMillisecond(a)),
        ScalarValueRepr::DurationMicrosecond(a) => Some(ScalarView::DurationMicrosecond(a)),
        ScalarValueRepr::DurationNanosecond(a) => Some(ScalarView::DurationNanosecond(a)),
    }
}

impl ScalarValueRepr {
    /// Encodes a constant; refuses exactly the nested constants.
    pub fn from_value(value: &ScalarValue) -> (r: Result<ScalarValueRepr, CodecError>)
        ensures
            match r {
                Ok(repr) => scalar_encodable(value@) && scalar_encodes(repr, value@),
                Err(e) => e == CodecError::InvalidData && !scalar_encodable(value@),
            },
    {
        match value {
            ScalarValue::Null => Ok(ScalarValueRepr::Null),
            ScalarValue::Boolean(v) => Ok(ScalarValueRepr::Boolean(*v)),
            ScalarValue::Float32(v) => Ok(ScalarValueRepr::Float32(*v)),
            ScalarValue::Float64(v) => Ok(ScalarValueRepr::Float64(*v)),
            ScalarValue::Decimal128(v, p, s) => Ok(ScalarValueRepr::Decimal128(*v, *p, *s)),
            ScalarValue::Decimal256(v, p, s) => {
                let text = match v {
                    Some(x) => Some(wide_to_text(x.0, x.1)),
                    None => None,
                };
                Ok(ScalarValueRepr::Decimal256(text, *p, *s))
            },
            ScalarValue::Int8(v) => Ok(ScalarValueRepr::Int8(*v)),
            ScalarValue::Int16(v) => Ok(ScalarValueRepr::Int16(*v)),
            ScalarValue::Int32(v) => Ok(ScalarValueRepr::Int32(*v)),
            ScalarValue::Int64(v) => Ok(ScalarValueRepr::Int64(*v)),
            ScalarValue::UInt8(v) => Ok(ScalarValueRepr::UInt8(*v)),
            ScalarValue::UInt16(v) => Ok(ScalarValueRepr::UInt16(*v)),
            ScalarValue::UInt32(v) => Ok(ScalarValueRepr::UInt32(*v)),
            ScalarValue::UInt64(v) => Ok(ScalarValueRepr::UInt64(*v)),
            ScalarValue::Utf8(v) => Ok(ScalarValueRepr::Utf8(copy_text_opt(v))),
            ScalarValue::Utf8View(v) => Ok(ScalarValueRepr::Utf8View(copy_text_opt(v))),
            ScalarValue::LargeUtf8(v) => Ok(ScalarValueRepr::LargeUtf8(copy_text_opt(v))),
            ScalarValue::Binary(v) => Ok(ScalarValueRepr::Binary(copy_bytes_opt(v))),
            ScalarValue::BinaryView(v) => Ok(ScalarValueRepr::BinaryView(copy_bytes_opt(v))),
            ScalarValue::FixedSizeBinary(n, v) => Ok(
                ScalarValueRepr::FixedSizeBinary(*n, copy_bytes_opt(v)),
            ),
            ScalarValue::LargeBinary(v) => Ok(ScalarValueRepr::LargeBinary(copy_bytes_opt(v))),
            ScalarValue::Date32(v) => Ok(ScalarValueRepr::Date32(*v)),
            ScalarValue::Date64(v) => Ok(ScalarValueRepr::Date64(*v)),
            ScalarValue::Time32Second(v) => Ok(ScalarValueRepr::Time32Second(*v)),
            ScalarValue::Time32Millisecond(v) => Ok(ScalarValueRepr::Time32Millisecond(*v)),
            ScalarValue::Time64Microsecond(v) => Ok(ScalarValueRepr::Time64Microsecond(*v)),
            ScalarValue::Time64Nanosecond(v) => Ok(ScalarValueRepr::Time64Nanosecond(*v)),
            ScalarValue::TimestampSecond(v, tz) => Ok(
                ScalarValueRepr::TimestampSecond(*v, copy_text_opt(tz)),
            ),
            ScalarValue::TimestampMillisecond(v, tz) => Ok(
                ScalarValueRepr::TimestampMillisecond(*v, copy_text_opt(tz)),
            ),
            ScalarValue::TimestampMicrosecond(v, tz) => Ok(
                ScalarValueRepr::TimestampMicrosecond(*v, copy_text_opt(tz)),
            ),
            ScalarValue::TimestampNanosecond(v, tz) => Ok(
                ScalarValueRepr::TimestampNanosecond(*v, copy_text_opt(tz)),
            ),
            ScalarValue::IntervalYearMonth(v) => Ok(ScalarValueRepr::IntervalYearMonth(*v)),
            ScalarValue::IntervalDayTime(v) => Ok(ScalarValueRepr::IntervalDayTime(*v)),
            ScalarValue::IntervalMonthDayNano(v) => Ok(ScalarValueRepr::IntervalMonthDayNano(*v)),
            ScalarValue::DurationSecond(v) => Ok(ScalarValueRepr::DurationSecond(*v)),
            ScalarValue::DurationMillisecond(v) => Ok(ScalarValueRepr::DurationMillisecond(*v)),
            ScalarValue::DurationMicrosecond(v) => Ok(ScalarValueRepr::DurationMicrosecond(*v)),
            ScalarValue::DurationNanosecond(v) => Ok(ScalarValueRepr::DurationNanosecond(*v)),
            ScalarValue::Nested(_) => Err(CodecError::InvalidData),
        }
    }

    /// Decodes a constant; refuses exactly the wide decimals whose text is no
    /// integer.
    pub fn to_value(&self) -> (r: Result<ScalarValue, CodecError>)
        ensures
            match r {
                Ok(v) => scalar_decoded(*self) == Some(v@),
                Err(e) => e == CodecError::InvalidData && scalar_decoded(*self) is None,
            },
    {
        match self {
            ScalarValueRepr::Null => Ok(ScalarValue::Null),
            ScalarValueRepr::Boolean(v) => Ok(ScalarValue::Boolean(*v)),
            ScalarValueRepr::Float32(v) => Ok(ScalarValue::Float32(*v)),
            ScalarValueRepr::Float64(v) => Ok(ScalarValue::Float64(*v)),
            ScalarValueRepr::Decimal128(v, p, s) => Ok(ScalarValue::Decimal128(*v, *p, *s)),
            ScalarValueRepr::Decimal256(v, p, s) => match v {
                Some(x) => match wide_from_text(x.as_str()) {
                    Some(y) => Ok(ScalarValue::Decimal256(Some(y), *p, *s)),
                    None => Err(CodecError::InvalidData),
                },
                None => Ok(ScalarValue::Decimal256(None, *p, *s)),
            },
            ScalarValueRepr::Int8(v) => Ok(ScalarValue::Int8(*v)),
            ScalarValueRepr::Int16(v) => Ok(ScalarValue::Int16(*v)),
            ScalarValueRepr::Int32(v) => Ok(ScalarValue::Int32(*v)),
            ScalarValueRepr::Int64(v) => Ok(ScalarValue::Int64(*v)),
            ScalarValueRepr::UInt8(v) => Ok(ScalarValue::UInt8(*v)),
            ScalarValueRepr::UInt16(v) => Ok(ScalarValue::UInt16(*v)),
            ScalarValueRepr::UInt32(v) => Ok(ScalarValue::UInt32(*v)),
            ScalarValueRepr::UInt64(v) => Ok(ScalarValue::UInt64(*v)),
            ScalarValueRepr::Utf8(v) => Ok(ScalarValue::Utf8(copy_text_opt(v))),
            ScalarValueRepr::Utf8View(v) => Ok(ScalarValue::Utf8View(copy_text_opt(v))),
            ScalarValueRepr::LargeUtf8(v) => Ok(ScalarValue::LargeUtf8(copy_text_opt(v))),
            ScalarValueRepr::Binary(v) => Ok(ScalarValue::Binary(copy_bytes_opt(v))),
            ScalarValueRepr::BinaryView(v) => Ok(ScalarValue::BinaryView(copy_bytes_opt(v))),
            ScalarValueRepr::FixedSizeBinary(n, v) => Ok(
                ScalarValue::FixedSizeBinary(*n, copy_bytes_opt(v)),
            ),
            ScalarValueRepr::LargeBinary(v) => Ok(ScalarValue::LargeBinary(copy_bytes_opt(v))),
            ScalarValueRepr::Date32(v) => Ok(ScalarValue::Date32(*v)),
            ScalarValueRepr::Date64(v) => Ok(ScalarValue::Date64(*v)),
            ScalarValueRepr::Time32Second(v) => Ok(ScalarValue::Time32Second(*v)),
            ScalarValueRepr::Time32Millisecond(v) => Ok(ScalarValue::Time32Millisecond(*v)),
            ScalarValueRepr::Time64Microsecond(v) => Ok(ScalarValue::Time64Microsecond(*v)),
            ScalarValueRepr::Time64Nanosecond(v) => Ok(ScalarValue::Time64Nanosecond(*v)),
            ScalarValueRepr::TimestampSecond(v, tz) => Ok(
                ScalarValue::TimestampSecond(*v, copy_text_opt(tz)),
            ),
            ScalarValueRepr::TimestampMillisecond(v, tz) => Ok(
                ScalarValue::TimestampMillisecond(*v, copy_text_opt(tz)),
            ),
            ScalarValueRepr::TimestampMicrosecond(v, tz) => Ok(
                ScalarValue::TimestampMicrosecond(*v, copy_text_opt(tz)),
            ),
            ScalarValueRepr::TimestampNanosecond(v, tz) => Ok(
                ScalarValue::TimestampNanosecond(*v, copy_text_opt(tz)),
            ),
            ScalarValueRepr::IntervalYearMonth(v) => Ok(ScalarValue::IntervalYearMonth(*v)),
            ScalarValueRepr::IntervalDayTime(v) => Ok(ScalarValue::IntervalDayTime(*v)),
            ScalarValueRepr::IntervalMonthDayNano(v) => Ok(ScalarValue::IntervalMonthDayNano(*v)),
            ScalarValueRepr::DurationSecond(v) => Ok(ScalarValue::DurationSecond(*v)),
            ScalarValueRepr::DurationMillisecond(v) => Ok(ScalarValue::DurationMillisecond(*v)),
            ScalarValueRepr::DurationMicrosecond(v) => Ok(ScalarValue::DurationMicrosecond(*v)),
            ScalarValueRepr::DurationNanosecond(v) => Ok(ScalarValue::DurationNanosecond(*v)),
        }
    }
}

/// A constant is decoded from its representation unchanged.
pub proof fn scalar_round_trip(r: ScalarValueRepr, v: ScalarView)
    requires
        scalar_encodes(r, v),
    ensures
        scalar_decoded(r) == Some(v),
{
}

// ---------------------------------------------------------------------------
// Columns and table references
// ---------------------------------------------------------------------------

/// Representation of a column reference.
#[derive(Debug)]
pub struct ColumnRepr {
    pub relation: Option<String>,
    pub name: String,
}

/// Whether a text spells an optional reference.
pub open spec fn relation_encodes(r: Option<String>, v: Option<Seq<Seq<char>>>) -> bool {
    match (r, v) {
        (Some(t), Some(p)) => t@ == dotted(p),
        (None, None) => true,
        _ => false,
    }
}

/// The reference that an optional text spells.
pub open spec fn relation_decoded(r: Option<String>) -> Option<Seq<Seq<char>>> {
    match r {
        Some(t) => Some(read_reference(t@)),
        None => None,
    }
}

/// Whether `r` is the representation of `c`.
pub open spec fn column_encodes(r: ColumnRepr, c: ColumnView) -> bool {
    relation_encodes(r.relation, c.relation) && r.name@ == c.name
}

/// The column that a representation stands for.
pub open spec fn column_decoded(r: ColumnRepr) -> ColumnView {
    ColumnView { relation: relation_decoded(r.relation), name: r.name@ }
}

fn write_relation(r: &Option<TableReference>) -> (t: Option<String>)
    ensures
        relation_encodes(t, ref_opt(*r)),
{
    match r {
        Some(x) => Some(x.to_text()),
        None => None,
    }
}

fn read_relation(t: &Option<String>) -> (r: Option<TableReference>)
    ensures
        ref_opt(r) == relation_decoded(*t),
{
    match t {
        Some(x) => Some(reference_from_text(x.as_str())),
        None => None,
    }
}

impl ColumnRepr {
    /// Encodes a column.
    pub fn from_column(column: &Column) -> (r: ColumnRepr)
        ensures
            column_encodes(r, column@),
    {
        ColumnRepr { relation: write_relation(&column.relation), name: column.name.clone() }
    }

    /// Decodes a column.
    pub fn to_column(&self) -> (r: Column)
        ensures
            r@ == column_decoded(*self),
    {
        Column { relation: read_relation(&self.relation), name: self.name.clone() }
    }
}

// ---------------------------------------------------------------------------
// Expressions and plans
// ---------------------------------------------------------------------------

/// Representation of a sort key.
#[derive(Debug)]
pub struct SortRepr {
    pub expr: ExprRepr,
    pub asc: bool,
    pub nulls_first: bool,
}

/// Representation of a subquery.
#[derive(Debug)]
pub struct SubqueryRepr {
    pub subquery: Box<LogicalPlanRepr>,
    pub outer_ref_columns: Vec<ExprRepr>,
}

/// Representation of an expression.
#[derive(Debug)]
pub enum ExprRepr {
    Column(ColumnRepr),
    Literal(ScalarValueRepr),
    BinaryExpr { left: Box<ExprRepr>, op: OperatorRepr, right: Box<ExprRepr> },
    Cast { expr: Box<ExprRepr>, data_type: DataTypeRepr },
    Alias { expr: Box<ExprRepr>, relation: Option<String>, name: String },
    AggregateFunction {
        func: String,
        args: Vec<ExprRepr>,
        distinct: bool,
        filter: Option<Box<ExprRepr>>,
        order_by: Option<Vec<SortRepr>>,
    },
    Between { expr: Box<ExprRepr>, negated: bool, low: Box<ExprRepr>, high: Box<ExprRepr> },
    InList { expr: Box<ExprRepr>, list: Vec<ExprRepr>, negated: bool },
    ScalarFunction { func: String, args: Vec<ExprRepr> },
    InSubquery { expr: Box<ExprRepr>, subquery: SubqueryRepr, negated: bool },
    Case {
        expr: Option<Box<ExprRepr>>,
        when_then: Vec<(ExprRepr, ExprRepr)>,
        else_expr: Option<Box<ExprRepr>>,
    },
}

/// Representation of a plan.
#[derive(Debug)]
pub enum LogicalPlanRepr {
    TableScan {
        table_name: String,
        schema: SchemaRepr,
        projection: Option<Vec<usize>>,
        filters: Vec<ExprRepr>,
        fetch: Option<usize>,
    },
    Projection { expr: Vec<ExprRepr>, input: Box<LogicalPlanRepr> },
    Filter { predicate: ExprRepr, input: Box<LogicalPlanRepr>, having: bool },
    Aggregate {
        group_expr: Vec<ExprRepr>,
        aggr_expr: Vec<ExprRepr>,
        input: Box<LogicalPlanRepr>,
    },
    Sort { expr: Vec<SortRepr>, input: Box<LogicalPlanRepr>, fetch: Option<usize> },
    Join {
        left: Box<LogicalPlanRepr>,
        right: Box<LogicalPlanRepr>,
        on: Vec<(ExprRepr, ExprRepr)>,
        filter: Option<ExprRepr>,
        join_type: JoinTypeRepr,
        join_constraint: JoinConstraintRepr,
        null_equals_null: bool,
    },
    SubqueryAlias { input: Box<LogicalPlanRepr>, alias: String },
    Limit { input: Box<LogicalPlanRepr>, skip: Option<ExprRepr>, fetch: Option<ExprRepr> },
    ExtensionRematerialize { input: Box<LogicalPlanRepr> },
    /// A result check by bag comparison.
    ExtensionResultCheck { input: Box<LogicalPlanRepr> },
    /// A result check that also compares the order.
    ExtensionOrderedResultCheck { input: Box<LogicalPlanRepr> },
}

/// Whether an expression has a representation.
pub open spec fn expr_encodable(v: ExprView) -> bool
    decreases v,
{
    match v {
        ExprView::Column(_) => true,
        ExprView::Literal(s) => scalar_encodable(s),
        ExprView::BinaryExpr { left, op, right } => expr_encodable(*left) && expr_encodable(*right),
        ExprView::Cast { expr, data_type } => expr_encodable(*expr) && type_encodable(data_type),
        ExprView::Alias { expr, relation, name } => expr_encodable(*expr),
        ExprView::AggregateFunction { func, args, distinct, filter, order_by, null_treatment } =>
        exprs_encodable(args) && (filter matches Some(f) ==> expr_encodable(*f)) && (
        order_by matches Some(o) ==> sorts_encodable(o)),
        ExprView::Between { expr, negated, low, high } => expr_encodable(*expr) && expr_encodable(
            *low,
        ) && expr_encodable(*high),
        ExprView::InList { expr, list, negated } => expr_encodable(*expr) && exprs_encodable(list),
        ExprView::ScalarFunction { func, args } => exprs_encodable(args),
        ExprView::InSubquery { expr, subquery, negated } => expr_encodable(*expr)
            && subquery_encodable(subquery),
        ExprView::Case { expr, when_then, else_expr } => (expr matches Some(e) ==> expr_encodable(
            *e,
        )) && pairs_encodable(when_then) && (else_expr matches Some(e) ==> expr_encodable(*e)),
        ExprView::Like { .. } => false,
        ExprView::Other { .. } => false,
    }
}

/// Whether every expression of a list has a representation.
pub open spec fn exprs_encodable(vs: Seq<ExprView>) -> bool
    decreases vs,
{
    forall|i: int| 0 <= i < vs.len() ==> expr_encodable(#[trigger] vs[i])
}

/// Whether every expression of a list of pairs has a representation.
pub open spec fn pairs_encodable(vs: Seq<(ExprView, ExprView)>) -> bool
    decreases vs,
{
    forall|i: int|
        0 <= i < vs.len() ==> expr_encodable((#[trigger] vs[i]).0) && expr_encodable(vs[i].1)
}

/// Whether every sort key of a list has a representation.
pub open spec fn sorts_encodable(vs: Seq<SortView>) -> bool
    decreases vs,
{
    forall|i: int| 0 <= i < vs.len() ==> expr_encodable((#[trigger] vs[i]).expr)
}

/// Whether a subquery has a representation.
pub open spec fn subquery_encodable(v: SubqueryView) -> bool
    decreases v,
{
    plan_encodable(*v.subquery) && exprs_encodable(v.outer_ref_columns)
}

/// Whether a plan has a representation.
pub open spec fn plan_encodable(v: PlanView) -> bool
    decreases v,
{
    match v {
        PlanView::TableScan { table_name, schema, projection, filters, fetch } => fields_encodable(
            schema.fields,
        ) && exprs_encodable(filters),
        PlanView::Projection { expr, input } => exprs_encodable(expr) && plan_encodable(*input),
        PlanView::Filter { predicate, input, having } => expr_encodable(predicate)
            && plan_encodable(*input),
        PlanView::Aggregate { group_expr, aggr_expr, input } => exprs_encodable(group_expr)
            && exprs_encodable(aggr_expr) && plan_encodable(*input),
        PlanView::Sort { expr, input, fetch } => sorts_encodable(expr) && plan_encodable(*input),
        PlanView::Join {
            left,
            right,
            on,
            filter,
            join_type,
            join_constraint,
            null_equals_null,
        } => plan_encodable(*left) && plan_encodable(*right) && pairs_encodable(on) && (
        filter matches Some(f) ==> expr_encodable(f)),
        PlanView::SubqueryAlias { input, alias } => plan_encodable(*input),
        PlanView::Limit { input, skip, fetch } => plan_encodable(*input) && (
        skip matches Some(e) ==> expr_encodable(*e)) && (fetch matches Some(e) ==> expr_encodable(
            *e,
        )),
        PlanView::Rematerialize { input } => plan_encodable(*input),
        PlanView::ResultCheck { input, mode } => plan_encodable(*input),
        PlanView::Other { .. } => false,
    }
}

/// Whether `r` is the representation of `v`. The way an aggregate treats
/// nulls is not represented.
pub open spec fn expr_encodes(r: ExprRepr, v: ExprView) -> bool
    decreases r,
{
    match r {
        ExprRepr::Column(c) => v matches ExprView::Column(w) && column_encodes(c, w),
        ExprRepr::Literal(s) => v matches ExprView::Literal(w) && scalar_encodes(s, w),
        ExprRepr::BinaryExpr { left: a, op: b, right: c } => {
            &&& v matches ExprView::BinaryExpr { left, op, right }
            &&& expr_encodes(*a, *left)
            &&& b == operator_repr(op)
            &&& expr_encodes(*c, *right)
        },
        ExprRepr::Cast { expr: a, data_type: b } => {
            &&& v matches ExprView::Cast { expr, data_type }
            &&& expr_encodes(*a, *expr)
            &&& type_encodes(b, data_type)
        },
        ExprRepr::Alias { expr: a, relation: b, name: c } => {
            &&& v matches ExprView::Alias { expr, relation, name }
            &&& expr_encodes(*a, *expr)
            &&& relation_encodes(b, relation)
            &&& c@ == name
        },
        ExprRepr::AggregateFunction { func: a, args: b, distinct: c, filter: d, order_by: e } => {
            &&& v matches ExprView::AggregateFunction {
                func,
                args,
                distinct,
                filter,
                order_by,
                null_treatment,
            }
            &&& a@ == func
            &&& exprs_encode(b@, args)
            &&& c == distinct
            &&& match (d, filter) {
                (Some(x), Some(y)) => expr_encodes(*x, *y),
                (None, None) => true,
                _ => false,
            }
            &&& match (e, order_by) {
                (Some(x), Some(y)) => sorts_encode(x@, y),
                (None, None) => true,
                _ => false,
            }
        },
        ExprRepr::Between { expr: a, negated: b, low: c, high: d } => {
            &&& v matches ExprView::Between { expr, negated, low, high }
            &&& expr_encodes(*a, *expr)
            &&& b == negated
            &&& expr_encodes(*c, *low)
            &&& expr_encodes(*d, *high)
        },
        ExprRepr::InList { expr: a, list: b, negated: c } => {
            &&& v matches ExprView::InList { expr, list, negated }
            &&& expr_encodes(*a, *expr)
            &&& exprs_encode(b@, list)
            &&& c == negated
        },
        ExprRepr::ScalarFunction { func: a, args: b } => {
            &&& v matches ExprView::ScalarFunction { func, args }
            &&& a@ == func
            &&& exprs_encode(b@, args)
        },
        ExprRepr::InSubquery { expr: a, subquery: b, negated: c } => {
            &&& v matches ExprView::InSubquery { expr, subquery, negated }
            &&& expr_encodes(*a, *expr)
            &&& subquery_encodes(b, subquery)
            &&& c == negated
        },
        ExprRepr::Case { expr: a, when_then: b, else_expr: c } => {
            &&& v matches ExprView::Case { expr, when_then, else_expr }
            &&& match (a, expr) {
                (Some(x), Some(y)) => expr_encodes(*x, *y),
                (None, None) => true,
                _ => false,
            }
            &&& pairs_encode(b@, when_then)
            &&& match (c, else_expr) {
                (Some(x), Some(y)) => expr_encodes(*x, *y),
                (None, None) => true,
                _ => false,
            }
        },
    }
}

/// Whether `rs` are the representations of `vs`, in order.
pub open spec fn exprs_encode(rs: Seq<ExprRepr>, vs: Seq<ExprView>) -> bool
    decreases rs,
{
    rs.len() == vs.len() && forall|i: int|
        0 <= i < rs.len() ==> expr_encodes(#[trigger] rs[i], vs[i])
}

/// Whether `rs` are the representations of the pairs `vs`, in order.
pub open spec fn pairs_encode(rs: Seq<(ExprRepr, ExprRepr)>, vs: Seq<(ExprView, ExprView)>) -> bool
    decreases rs,
{
    rs.len() == vs.len() && forall|i: int|
        0 <= i < rs.len() ==> expr_encodes((#[trigger] rs[i]).0, vs[i].0) && expr_encodes(
            rs[i].1,
            vs[i].1,
        )
}

/// Whether `rs` are the representations of the sort keys `vs`, in order.
pub open spec fn sorts_encode(rs: Seq<SortRepr>, vs: Seq<SortView>) -> bool
    decreases rs,
{
    rs.len() == vs.len() && forall|i: int|
        0 <= i < rs.len() ==> sort_encodes(#[trigger] rs[i], vs[i])
}

/// Whether `r` is the representation of the sort key `v`.
pub open spec fn sort_encodes(r: SortRepr, v: SortView) -> bool
    decreases r,
{
    expr_encodes(r.expr, v.expr) && r.asc == v.asc && r.nulls_first == v.nulls_first
}

/// Whether `r` is the representation of the subquery `v`.
pub open spec fn subquery_encodes(r: SubqueryRepr, v: SubqueryView) -> bool
    decreases r,
{
    plan_encodes(*r.subquery, *v.subquery) && exprs_encode(
        r.outer_ref_columns@,
        v.outer_ref_columns,
    )
}

/// Whether `r` is the representation of `v`.
pub open spec fn plan_encodes(r: LogicalPlanRepr, v: PlanView) -> bool
    decreases r,
{
    match r {
        LogicalPlanRepr::TableScan {
            table_name: a,
            schema: b,
            projection: c,
            filters: d,
            fetch: e,
        } => {
            &&& v matches PlanView::TableScan { table_name, schema, projection, filters, fetch }
            &&& a@ == dotted(table_name)
            &&& schema_encodes(b, schema)
            &&& indices_opt(c) == projection
            &&& exprs_encode(d@, filters)
            &&& e == fetch
        },
        LogicalPlanRepr::Projection { expr: a, input: b } => {
            &&& v matches PlanView::Projection { expr, input }
            &&& exprs_encode(a@, expr)
            &&& plan_encodes(*b, *input)
        },
        LogicalPlanRepr::Filter { predicate: a, input: b, having: c } => {
            &&& v matches PlanView::Filter { predicate, input, having }
            &&& expr_encodes(a, predicate)
            &&& plan_encodes(*b, *input)
            &&& c == having
        },
        LogicalPlanRepr::Aggregate { group_expr: a, aggr_expr: b, input: c } => {
            &&& v matches PlanView::Aggregate { group_expr, aggr_expr, input }
            &&& exprs_encode(a@, group_expr)
            &&& exprs_encode(b@, aggr_expr)
            &&& plan_encodes(*c, *input)
        },
        LogicalPlanRepr::Sort { expr: a, input: b, fetch: c } => {
            &&& v matches PlanView::Sort { expr, input, fetch }
            &&& sorts_encode(a@, expr)
            &&& plan_encodes(*b, *input)
            &&& c == fetch
        },
        LogicalPlanRepr::Join {
            left: a,
            right: b,
            on: c,
            filter: d,
            join_type: e,
            join_constraint: f,
            null_equals_null: g,
        } => {
            &&& v matches PlanView::Join {
                left,
                right,
                on,
                filter,
                join_type,
                join_constraint,
                null_equals_null,
            }
            &&& plan_encodes(*a, *left)
            &&& plan_encodes(*b, *right)
            &&& pairs_encode(c@, on)
            &&& match (d, filter) {
                (Some(x), Some(y)) => expr_encodes(x, y),
                (None, None) => true,
                _ => false,
            }
            &&& e == join_type_repr(join_type)
            &&& f == join_constraint_repr(join_constraint)
            &&& g == null_equals_null
        },
        LogicalPlanRepr::SubqueryAlias { input: a, alias: b } => {
            &&& v matches PlanView::SubqueryAlias { input, alias }
            &&& plan_encodes(*a, *input)
            &&& b@ == dotted(alias)
        },
        LogicalPlanRepr::Limit { input: a, skip: b, fetch: c } => {
            &&& v matches PlanView::Limit { input, skip, fetch }
            &&& plan_encodes(*a, *input)
            &&& match (b, skip) {
                (Some(x), Some(y)) => expr_encodes(x, *y),
                (None, None) => true,
                _ => false,
            }
            &&& match (c, fetch) {
                (Some(x), Some(y)) => expr_encodes(x, *y),
                (None, None) => true,
                _ => false,
            }
        },
        LogicalPlanRepr::ExtensionRematerialize { input: a } => {
            &&& v matches PlanView::Rematerialize { input }
            &&& plan_encodes(*a, *input)
        },
        LogicalPlanRepr::ExtensionResultCheck { input: a } => {
            &&& v matches PlanView::ResultCheck { input, mode }
            &&& plan_encodes(*a, *input)
            &&& mode == ResultCheckMode::Bag
        },
        LogicalPlanRepr::ExtensionOrderedResultCheck { input: a } => {
            &&& v matches PlanView::ResultCheck { input, mode }
            &&& plan_encodes(*a, *input)
            &&& mode == ResultCheckMode::Ordered
        },
    }
}

// ---------------------------------------------------------------------------
// What the query engine makes of an operator
// ---------------------------------------------------------------------------

/// What a query engine makes of each operator whose inputs it has accepted:
/// the operator as the engine holds it, or none where it refuses the operator.
pub type EngineFn = spec_fn(PlanView) -> Option<PlanView>;

/// Whether an engine can be asked about any operator.
pub open spec fn answers<F: Fn(&LogicalPlan) -> Option<LogicalPlan>>(engine: F) -> bool {
    forall|op: &LogicalPlan| #[trigger] call_requires(engine, (op,))
}

/// Whether the answers of an engine are those of a function of the operator.
pub open spec fn follows<F: Fn(&LogicalPlan) -> Option<LogicalPlan>>(
    engine: F,
    built: EngineFn,
) -> bool {
    forall|op: &LogicalPlan, r: Option<LogicalPlan>| #[trigger]
        call_ensures(engine, (op,), r) ==> match r {
            Some(p) => built(op@) == Some(p@),
            None => built(op@) is None,
        }
}

/// An operator as the engine holds it, or its refusal.
pub open spec fn accepted(op: PlanView, built: EngineFn) -> Result<PlanView, CodecError> {
    match built(op) {
        Some(p) => Ok(p),
        None => Err(CodecError::Refused),
    }
}

/// Hands an operator to the engine.
fn ask<F: Fn(&LogicalPlan) -> Option<LogicalPlan>>(op: LogicalPlan, engine: &F) -> (r: Result<
    LogicalPlan,
    CodecError,
>)
    requires
        answers(*engine),
    ensures
        forall|built: EngineFn|
            #[trigger] follows(*engine, built) ==> match r {
                Ok(p) => accepted(op@, built) == Ok::<PlanView, CodecError>(p@),
                Err(e) => accepted(op@, built) == Err::<PlanView, CodecError>(e),
            },
{
    match engine(&op) {
        Some(p) => Ok(p),
        None => Err(CodecError::Refused),
    }
}

/// A join with another filter; other operators have none.
pub open spec fn with_filter(op: PlanView, f: Option<ExprView>) -> PlanView {
    match op {
        PlanView::Join {
            left,
            right,
            on,
            filter,
            join_type,
            join_constraint,
            null_equals_null,
        } => PlanView::Join {
            left,
            right,
            on,
            filter: f,
            join_type,
            join_constraint,
            null_equals_null,
        },
        _ => op,
    }
}

/// Puts a filter on a join.
fn filter_join(op: LogicalPlan, f: Expr) -> (r: LogicalPlan)
    ensures
        r@ == with_filter(op@, Some(f@)),
{
    match op {
        LogicalPlan::Join {
            left,
            right,
            on,
            filter: _,
            join_type,
            join_constraint,
            null_equals_null,
        } => LogicalPlan::Join {
            left,
            right,
            on,
            filter: Some(f),
            join_type,
            join_constraint,
            null_equals_null,
        },
        other => other,
    }
}

/// The expression that a representation stands for, with the functions that
/// the registry holds and the plans that the engine builds, or the first error
/// in reading order.
pub open spec fn expr_decoded(
    r: ExprRepr,
    reg: FunctionRegistry,
    built: EngineFn,
) -> Result<ExprView, CodecError>
    decreases r,
{
    match r {
        ExprRepr::Column(c) => Ok(ExprView::Column(column_decoded(c))),
        ExprRepr::Literal(s) => match scalar_decoded(s) {
            Some(v) => Ok(ExprView::Literal(v)),
            None => Err(CodecError::InvalidData),
        },
        ExprRepr::BinaryExpr { left, op, right } => match expr_decoded(*left, reg, built) {
            Err(e) => Err(e),
            Ok(a) => match expr_decoded(*right, reg, built) {
                Err(e) => Err(e),
                Ok(b) => Ok(
                    ExprView::BinaryExpr {
                        left: Box::new(a),
                        op: operator_of(op),
                        right: Box::new(b),
                    },
                ),
            },
        },
        ExprRepr::Cast { expr, data_type } => match expr_decoded(*expr, reg, built) {
            Err(e) => Err(e),
            Ok(a) => match type_decoded(data_type) {
                None => Err(CodecError::InvalidData),
                Some(t) => Ok(ExprView::Cast { expr: Box::new(a), data_type: t }),
            },
        },
        ExprRepr::Alias { expr, relation, name } => match expr_decoded(*expr, reg, built) {
            Err(e) => Err(e),
            Ok(a) => Ok(
                ExprView::Alias {
                    expr: Box::new(a),
                    relation: relation_decoded(relation),
                    name: name@,
                },
            ),
        },
        ExprRepr::AggregateFunction { func, args, distinct, filter, order_by } => match looked_up(
            reg.aggregates@,
            func@,
        ) {
            None => Err(CodecError::UnknownAggregate),
            Some(f) => match exprs_decoded(args@, reg, built) {
                Err(e) => Err(e),
                Ok(a) => match match filter {
                    Some(x) => match expr_decoded(*x, reg, built) {
                        Ok(y) => Ok(Some(Box::new(y))),
                        Err(e) => Err(e),
                    },
                    None => Ok(None),
                } {
                    Err(e) => Err(e),
                    Ok(b) => match match order_by {
                        Some(x) => match sorts_decoded(x@, reg, built) {
                            Ok(y) => Ok(Some(y)),
                            Err(e) => Err(e),
                        },
                        None => Ok(None),
                    } {
                        Err(e) => Err(e),
                        Ok(c) => Ok(
                            ExprView::AggregateFunction {
                                func: f,
                                args: a,
                                distinct,
                                filter: b,
                                order_by: c,
                                null_treatment: None,
                            },
                        ),
                    },
                },
            },
        },
        ExprRepr::Between { expr, negated, low, high } => match expr_decoded(*expr, reg, built) {
            Err(e) => Err(e),
            Ok(a) => match expr_decoded(*low, reg, built) {
                Err(e) => Err(e),
                Ok(b) => match expr_decoded(*high, reg, built) {
                    Err(e) => Err(e),
                    Ok(c) => Ok(
                        ExprView::Between {
                            expr: Box::new(a),
                            negated,
                            low: Box::new(b),
                            high: Box::new(c),
                        },
                    ),
                },
            },
        },
        ExprRepr::InList { expr, list, negated } => match expr_decoded(*expr, reg, built) {
            Err(e) => Err(e),
            Ok(a) => match exprs_decoded(list@, reg, built) {
                Err(e) => Err(e),
                Ok(b) => Ok(ExprView::InList { expr: Box::new(a), list: b, negated }),
            },
        },
        ExprRepr::ScalarFunction { func, args } => match looked_up(reg.scalars@, func@) {
            None => Err(CodecError::UnknownScalar),
            Some(f) => match exprs_decoded(args@, reg, built) {
                Err(e) => Err(e),
                Ok(a) => Ok(ExprView::ScalarFunction { func: f, args: a }),
            },
        },
        ExprRepr::InSubquery { expr, subquery, negated } => match subquery_decoded(subquery, reg, built) {
            Err(e) => Err(e),
            Ok(a) => match expr_decoded(*expr, reg, built) {
                Err(e) => Err(e),
                Ok(b) => Ok(
                    ExprView::InSubquery { expr: Box::new(b), subquery: a, negated },
                ),
            },
        },
        ExprRepr::Case { expr, when_then, else_expr } => match match expr {
            Some(x) => match expr_decoded(*x, reg, built) {
                Ok(y) => Ok(Some(Box::new(y))),
                Err(e) => Err(e),
            },
            None => Ok(None),
        } {
            Err(e) => Err(e),
            Ok(a) => match pairs_decoded(when_then@, reg, built) {
                Err(e) => Err(e),
                Ok(b) => match match else_expr {
                    Some(x) => match expr_decoded(*x, reg, built) {
                        Ok(y) => Ok(Some(Box::new(y))),
                        Err(e) => Err(e),
                    },
                    None => Ok(None),
                } {
                    Err(e) => Err(e),
                    Ok(c) => Ok(ExprView::Case { expr: a, when_then: b, else_expr: c }),
                },
            },
        },
    }
}

/// The expressions that a list of representations stands for, or the error of
/// the first that stands for none.
pub open spec fn exprs_decoded(
    rs: Seq<ExprRepr>,
    reg: FunctionRegistry,
    built: EngineFn,
) -> Result<Seq<ExprView>, CodecError>
    decreases rs,
{
    if rs.len() == 0 {
        Ok(Seq::empty())
    } else {
        match exprs_decoded(rs.drop_last(), reg, built) {
            Err(e) => Err(e),
            Ok(a) => match expr_decoded(rs.last(), reg, built) {
                Err(e) => Err(e),
                Ok(b) => Ok(a.push(b)),
            },
        }
    }
}

/// The pairs that a list of representations stands for, or the first error in
/// reading order.
pub open spec fn pairs_decoded(
    rs: Seq<(ExprRepr, ExprRepr)>,
    reg: FunctionRegistry,
    built: EngineFn,
) -> Result<Seq<(ExprView, ExprView)>, CodecError>
    decreases rs,
{
    if rs.len() == 0 {
        Ok(Seq::empty())
    } else {
        match pairs_decoded(rs.drop_last(), reg, built) {
            Err(e) => Err(e),
            Ok(a) => match expr_decoded(rs.last().0, reg, built) {
                Err(e) => Err(e),
                Ok(b) => match expr_decoded(rs.last().1, reg, built) {
                    Err(e) => Err(e),
                    Ok(c) => Ok(a.push((b, c))),
                },
            },
        }
    }
}

/// The sort key that a representation stands for.
pub open spec fn sort_decoded(
    r: SortRepr,
    reg: FunctionRegistry,
    built: EngineFn,
) -> Result<SortView, CodecError>
    decreases r,
{
    match expr_decoded(r.expr, reg, built) {
        Ok(expr) => Ok(SortView { expr, asc: r.asc, nulls_first: r.nulls_first }),
        Err(e) => Err(e),
    }
}

/// The sort keys that a list of representations stands for, or the error of
/// the first that stands for none.
pub open spec fn sorts_decoded(
    rs: Seq<SortRepr>,
    reg: FunctionRegistry,
    built: EngineFn,
) -> Result<Seq<SortView>, CodecError>
    decreases rs,
{
    if rs.len() == 0 {
        Ok(Seq::empty())
    } else {
        match sorts_decoded(rs.drop_last(), reg, built) {
            Err(e) => Err(e),
            Ok(a) => match sort_decoded(rs.last(), reg, built) {
                Err(e) => Err(e),
                Ok(b) => Ok(a.push(b)),
            },
        }
    }
}

/// The subquery that a representation stands for.
pub open spec fn subquery_decoded(
    r: SubqueryRepr,
    reg: FunctionRegistry,
    built: EngineFn,
) -> Result<SubqueryView, CodecError>
    decreases r,
{
    match plan_decoded(*r.subquery, reg, built) {
        Err(e) => Err(e),
        Ok(a) => match exprs_decoded(r.outer_ref_columns@, reg, built) {
            Err(e) => Err(e),
            Ok(b) => Ok(SubqueryView { subquery: Box::new(a), outer_ref_columns: b }),
        },
    }
}

/// The plan that a representation stands for, with the functions that the
/// registry holds and the operators that the engine builds, or the first error
/// in reading order. A join is put together here, once the engine has accepted
/// it without its filter; sorts, limits and checks are never refused.
pub open spec fn plan_decoded(
    r: LogicalPlanRepr,
    reg: FunctionRegistry,
    built: EngineFn,
) -> Result<PlanView, CodecError>
    decreases r,
{
    match r {
        LogicalPlanRepr::TableScan { table_name, schema, projection, filters, fetch } => match schema_decoded(schema) {
            None => Err(CodecError::InvalidData),
            Some(a) => match exprs_decoded(filters@, reg, built) {
                Err(e) => Err(e),
                Ok(b) => accepted(
                    PlanView::TableScan {
                        table_name: read_reference(table_name@),
                        schema: a,
                        projection: indices_opt(projection),
                        filters: b,
                        fetch,
                    },
                    built,
                ),
            },
        },
        LogicalPlanRepr::Projection { expr, input } => match plan_decoded(*input, reg, built) {
            Err(e) => Err(e),
            Ok(a) => match exprs_decoded(expr@, reg, built) {
                Err(e) => Err(e),
                Ok(b) => accepted(PlanView::Projection { expr: b, input: Box::new(a) }, built),
            },
        },
        LogicalPlanRepr::Filter { predicate, input, having } => match plan_decoded(*input, reg, built) {
            Err(e) => Err(e),
            Ok(a) => match expr_decoded(predicate, reg, built) {
                Err(e) => Err(e),
                Ok(b) => accepted(
                    PlanView::Filter { predicate: b, input: Box::new(a), having },
                    built,
                ),
            },
        },
        LogicalPlanRepr::Aggregate { group_expr, aggr_expr, input } => match plan_decoded(*input, reg, built) {
            Err(e) => Err(e),
            Ok(a) => match exprs_decoded(group_expr@, reg, built) {
                Err(e) => Err(e),
                Ok(b) => match exprs_decoded(aggr_expr@, reg, built) {
                    Err(e) => Err(e),
                    Ok(c) => accepted(
                        PlanView::Aggregate { group_expr: b, aggr_expr: c, input: Box::new(a) },
                        built,
                    ),
                },
            },
        },
        LogicalPlanRepr::Sort { expr, input, fetch } => match plan_decoded(*input, reg, built) {
            Err(e) => Err(e),
            Ok(a) => match sorts_decoded(expr@, reg, built) {
                Err(e) => Err(e),
                Ok(b) => Ok(PlanView::Sort { expr: b, input: Box::new(a), fetch }),
            },
        },
        LogicalPlanRepr::Join {
            left,
            right,
            on,
            filter,
            join_type,
            join_constraint,
            null_equals_null,
        } => match plan_decoded(*left, reg, built) {
            Err(e) => Err(e),
            Ok(a) => match plan_decoded(*right, reg, built) {
                Err(e) => Err(e),
                Ok(b) => match pairs_decoded(on@, reg, built) {
                    Err(e) => Err(e),
                    Ok(c) => match accepted(
                        PlanView::Join {
                            left: Box::new(a),
                            right: Box::new(b),
                            on: c,
                            filter: None,
                            join_type: join_type_of(join_type),
                            join_constraint: join_constraint_of(join_constraint),
                            null_equals_null,
                        },
                        built,
                    ) {
                        Err(e) => Err(e),
                        Ok(_) => match match filter {
                            Some(x) => match expr_decoded(x, reg, built) {
                                Ok(y) => Ok(Some(y)),
                                Err(e) => Err(e),
                            },
                            None => Ok(None),
                        } {
                            Err(e) => Err(e),
                            Ok(d) => Ok(
                                PlanView::Join {
                                    left: Box::new(a),
                                    right: Box::new(b),
                                    on: c,
                                    filter: d,
                                    join_type: join_type_of(join_type),
                                    join_constraint: join_constraint_of(join_constraint),
                                    null_equals_null,
                                },
                            ),
                        },
                    },
                },
            },
        },
        LogicalPlanRepr::SubqueryAlias { input, alias } => match plan_decoded(*input, reg, built) {
            Err(e) => Err(e),
            Ok(a) => accepted(
                PlanView::SubqueryAlias { input: Box::new(a), alias: read_reference(alias@) },
                built,
            ),
        },
        LogicalPlanRepr::Limit { input, skip, fetch } => match plan_decoded(*input, reg, built) {
            Err(e) => Err(e),
            Ok(a) => match match skip {
                Some(x) => match expr_decoded(x, reg, built) {
                    Ok(y) => Ok(Some(Box::new(y))),
                    Err(e) => Err(e),
                },
                None => Ok(None),
            } {
                Err(e) => Err(e),
                Ok(b) => match match fetch {
                    Some(x) => match expr_decoded(x, reg, built) {
                        Ok(y) => Ok(Some(Box::new(y))),
                        Err(e) => Err(e),
                    },
                    None => Ok(None),
                } {
                    Err(e) => Err(e),
                    Ok(c) => Ok(PlanView::Limit { input: Box::new(a), skip: b, fetch: c }),
                },
            },
        },
        LogicalPlanRepr::ExtensionRematerialize { input } => match plan_decoded(*input, reg, built) {
            Err(e) => Err(e),
            Ok(a) => Ok(PlanView::Rematerialize { input: Box::new(a) }),
        },
        LogicalPlanRepr::ExtensionResultCheck { input } => match plan_decoded(*input, reg, built) {
            Err(e) => Err(e),
            Ok(a) => Ok(PlanView::ResultCheck { input: Box::new(a), mode: ResultCheckMode::Bag }),
        },
        LogicalPlanRepr::ExtensionOrderedResultCheck { input } => match plan_decoded(*input, reg, built) {
            Err(e) => Err(e),
            Ok(a) => Ok(
                PlanView::ResultCheck { input: Box::new(a), mode: ResultCheckMode::Ordered },
            ),
        },
    }
}

/// An error in front of a list is the error of the list.
proof fn lemma_exprs_error(
    rs: Seq<ExprRepr>,
    i: int,
    reg: FunctionRegistry,
    built: EngineFn,
)
    requires
        0 <= i <= rs.len(),
        exprs_decoded(rs.take(i), reg, built) is Err,
    ensures
        exprs_decoded(rs, reg, built) == exprs_decoded(rs.take(i), reg, built),
    decreases rs.len(),
{
    if i == rs.len() {
        assert(rs.take(i) =~= rs);
    } else {
        assert(rs.drop_last().take(i) =~= rs.take(i));
        lemma_exprs_error(rs.drop_last(), i, reg, built);
    }
}

/// An error in front of a list is the error of the list.
proof fn lemma_pairs_error(
    rs: Seq<(ExprRepr, ExprRepr)>,
    i: int,
    reg: FunctionRegistry,
    built: EngineFn,
)
    requires
        0 <= i <= rs.len(),
        pairs_decoded(rs.take(i), reg, built) is Err,
    ensures
        pairs_decoded(rs, reg, built) == pairs_decoded(rs.take(i), reg, built),
    decreases rs.len(),
{
    if i == rs.len() {
        assert(rs.take(i) =~= rs);
    } else {
        assert(rs.drop_last().take(i) =~= rs.take(i));
        lemma_pairs_error(rs.drop_last(), i, reg, built);
    }
}

/// An error in front of a list is the error of the list.
proof fn lemma_sorts_error(
    rs: Seq<SortRepr>,
    i: int,
    reg: FunctionRegistry,
    built: EngineFn,
)
    requires
        0 <= i <= rs.len(),
        sorts_decoded(rs.take(i), reg, built) is Err,
    ensures
        sorts_decoded(rs, reg, built) == sorts_decoded(rs.take(i), reg, built),
    decreases rs.len(),
{
    if i == rs.len() {
        assert(rs.take(i) =~= rs);
    } else {
        assert(rs.drop_last().take(i) =~= rs.take(i));
        lemma_sorts_error(rs.drop_last(), i, reg, built);
    }
}

impl SortRepr {
    /// Encodes a sort key.
    pub fn from_sort(sort: &SortExpr) -> (r: Result<SortRepr, CodecError>)
        ensures
            match r {
                Ok(repr) => expr_encodable(sort@.expr) && sort_encodes(repr, sort@),
                Err(e) => e == CodecError::InvalidData && !expr_encodable(sort@.expr),
            },
        decreases sort,
    {
        match ExprRepr::from_expr(&sort.expr) {
            Ok(expr) => Ok(SortRepr { expr, asc: sort.asc, nulls_first: sort.nulls_first }),
            Err(e) => Err(e),
        }
    }

    fn from_sorts(sorts: &Vec<SortExpr>) -> (r: Result<Vec<SortRepr>, CodecError>)
        ensures
            match r {
                Ok(reprs) => sorts_encodable(sorts_view(sorts@)) && sorts_encode(
                    reprs@,
                    sorts_view(sorts@),
                ),
                Err(e) => e == CodecError::InvalidData && !sorts_encodable(sorts_view(sorts@)),
            },
        decreases sorts,
    {
        let ghost views = sorts_view(sorts@);
        let mut out: Vec<SortRepr> = Vec::new();
        let mut i: usize = 0;
        while i < sorts.len()
            invariant
                i <= sorts@.len(),
                out@.len() == i,
                views == sorts_view(sorts@),
                forall|j: int|
                    0 <= j < i ==> sort_encodes(#[trigger] out@[j], views[j]) && expr_encodable(
                        views[j].expr,
                    ),
            decreases sorts@.len() - i,
        {
            let ghost before = out@;
            match SortRepr::from_sort(&sorts[i]) {
                Ok(x) => {
                    out.push(x);
                    proof {
                        assert(views[i as int] == sorts@[i as int]@);
                        assert(forall|j: int| 0 <= j < i ==> out@[j] == before[j]);
                    }
                },
                Err(e) => {
                    assert(!expr_encodable(views[i as int].expr));
                    return Err(e);
                },
            }
            i = i + 1;
        }
        proof {
            assert forall|j: int| 0 <= j < views.len() implies expr_encodable(
                (#[trigger] views[j]).expr,
            ) by {
                assert(sort_encodes(out@[j], views[j]));
            }
        }
        Ok(out)
    }

    /// Decodes a sort key. The engine is asked about the plans of its subqueries.
    pub fn to_sort<F: Fn(&LogicalPlan) -> Option<LogicalPlan>>(
        &self,
        reg: &FunctionRegistry,
        engine: &F,
    ) -> (r: Result<SortExpr, CodecError>)
        requires
            answers(*engine),
        ensures
            forall|built: EngineFn|
                #[trigger] follows(*engine, built) ==> match r {
                    Ok(s) => sort_decoded(*self, *reg, built) == Ok::<SortView, CodecError>(s@),
                    Err(e) => sort_decoded(*self, *reg, built) == Err::<SortView, CodecError>(e),
                },
        decreases self, 0int,
    {
        match self.expr.to_expr(reg, engine) {
            Ok(expr) => Ok(SortExpr { expr, asc: self.asc, nulls_first: self.nulls_first }),
            Err(e) => Err(e),
        }
    }

    fn to_sorts<F: Fn(&LogicalPlan) -> Option<LogicalPlan>>(
        sorts: &Vec<SortRepr>,
        reg: &FunctionRegistry,
        engine: &F,
    ) -> (r: Result<Vec<SortExpr>, CodecError>)
        requires
            answers(*engine),
        ensures
            forall|built: EngineFn|
                #[trigger] follows(*engine, built) ==> match r {
                    Ok(s) => sorts_decoded(sorts@, *reg, built) == Ok::<Seq<SortView>, CodecError>(
                        sorts_view(s@),
                    ),
                    Err(e) => sorts_decoded(sorts@, *reg, built) == Err::<Seq<SortView>, CodecError>(e),
                },
        decreases sorts, 0int,
    {
        let mut out: Vec<SortExpr> = Vec::new();
        let mut i: usize = 0;
        assert(sorts_view(out@) =~= Seq::<SortView>::empty());
        while i < sorts.len()
            invariant
                i <= sorts@.len(),
                answers(*engine),
                forall|built: EngineFn|
                    #[trigger] follows(*engine, built) ==> sorts_decoded(
                        sorts@.take(i as int),
                        *reg,
                        built,
                    ) == Ok::<Seq<SortView>, CodecError>(sorts_view(out@)),
            decreases sorts@.len() - i,
        {
            let ghost before = out@;
            let ghost prefix = sorts@.take(i + 1);
            proof {
                assert(prefix.drop_last() =~= sorts@.take(i as int));
                assert(prefix.last() == sorts@[i as int]);
            }
            match sorts[i].to_sort(reg, engine) {
                Ok(x) => {
                    out.push(x);
                    assert(sorts_view(out@) =~= sorts_view(before).push(x@));
                },
                Err(e) => {
                    proof {
                        assert forall|built: EngineFn| #[trigger]
                            follows(*engine, built) implies sorts_decoded(sorts@, *reg, built)
                            == Err::<Seq<SortView>, CodecError>(e) by {
                            lemma_sorts_error(sorts@, i + 1, *reg, built);
                        }
                    }
                    return Err(e);
                },
            }
            i = i + 1;
        }
        assert(sorts@.take(i as int) =~= sorts@);
        Ok(out)
    }
}

impl SubqueryRepr {
    /// Encodes a subquery.
    pub fn from_subquery(subquery: &Subquery) -> (r: Result<SubqueryRepr, CodecError>)
        ensures
            match r {
                Ok(repr) => subquery_encodable(subquery@) && subquery_encodes(repr, subquery@),
                Err(e) => e == CodecError::InvalidData && !subquery_encodable(subquery@),
            },
        decreases subquery,
    {
        match LogicalPlanRepr::from_plan(&subquery.subquery) {
            Ok(plan) => match ExprRepr::from_exprs(&subquery.outer_ref_columns) {
                Ok(outer_ref_columns) => Ok(
                    SubqueryRepr { subquery: Box::new(plan), outer_ref_columns },
                ),
                Err(e) => Err(e),
            },
            Err(e) => Err(e),
        }
    }

    /// Decodes a subquery, of whose plan the engine is asked.
    pub fn to_subquery<F: Fn(&LogicalPlan) -> Option<LogicalPlan>>(
        &self,
        reg: &FunctionRegistry,
        engine: &F,
    ) -> (r: Result<Subquery, CodecError>)
        requires
            answers(*engine),
        ensures
            forall|built: EngineFn|
                #[trigger] follows(*engine, built) ==> match r {
                    Ok(s) => subquery_decoded(*self, *reg, built) == Ok::<SubqueryView, CodecError>(s@),
                    Err(e) => subquery_decoded(*self, *reg, built) == Err::<SubqueryView, CodecError>(e),
                },
        decreases self, 0int,
    {
        match self.subquery.to_plan(reg, engine) {
            Ok(plan) => match ExprRepr::to_exprs(&self.outer_ref_columns, reg, engine) {
                Ok(outer_ref_columns) => Ok(
                    Subquery { subquery: Box::new(plan), outer_ref_columns },
                ),
                Err(e) => Err(e),
            },
            Err(e) => Err(e),
        }
    }
}

impl ExprRepr {
    fn from_exprs(exprs: &Vec<Expr>) -> (r: Result<Vec<ExprRepr>, CodecError>)
        ensures
            match r {
                Ok(reprs) => exprs_encodable(exprs_view(exprs@)) && exprs_encode(
                    reprs@,
                    exprs_view(exprs@),
                ),
                Err(e) => e == CodecError::InvalidData && !exprs_encodable(exprs_view(exprs@)),
            },
        decreases exprs,
    {
        let ghost views = exprs_view(exprs@);
        let mut out: Vec<ExprRepr> = Vec::new();
        let mut i: usize = 0;
        while i < exprs.len()
            invariant
                i <= exprs@.len(),
                out@.len() == i,
                views == exprs_view(exprs@),
                forall|j: int|
                    0 <= j < i ==> expr_encodes(#[trigger] out@[j], views[j]) && expr_encodable(
                        views[j],
                    ),
            decreases exprs@.len() - i,
        {
            let ghost before = out@;
            match ExprRepr::from_expr(&exprs[i]) {
                Ok(x) => {
                    out.push(x);
                    proof {
                        assert(views[i as int] == exprs@[i as int]@);
                        assert(forall|j: int| 0 <= j < i ==> out@[j] == before[j]);
                    }
                },
                Err(e) => {
                    assert(!expr_encodable(views[i as int]));
                    return Err(e);
                },
            }
            i = i + 1;
        }
        proof {
            assert forall|j: int| 0 <= j < views.len() implies expr_encodable(
                #[trigger] views[j],
            ) by {
                assert(expr_encodes(out@[j], views[j]));
            }
        }
        Ok(out)
    }

    fn from_pairs(pairs: &Vec<(Expr, Expr)>) -> (r: Result<Vec<(ExprRepr, ExprRepr)>, CodecError>)
        ensures
            match r {
                Ok(reprs) => pairs_encodable(pairs_view(pairs@)) && pairs_encode(
                    reprs@,
                    pairs_view(pairs@),
                ),
                Err(e) => e == CodecError::InvalidData && !pairs_encodable(pairs_view(pairs@)),
            },
        decreases pairs,
    {
        let ghost views = pairs_view(pairs@);
        let mut out: Vec<(ExprRepr, ExprRepr)> = Vec::new();
        let mut i: usize = 0;
        while i < pairs.len()
            invariant
                i <= pairs@.len(),
                out@.len() == i,
                views == pairs_view(pairs@),
                forall|j: int|
                    0 <= j < i ==> expr_encodes((#[trigger] out@[j]).0, views[j].0) && expr_encodes(
                        out@[j].1,
                        views[j].1,
                    ) && expr_encodable(views[j].0) && expr_encodable(views[j].1),
            decreases pairs@.len() - i,
        {
            assert(decreases_to!(pairs => pairs@[i as int]));
            match ExprRepr::from_expr(&pairs[i].0) {
                Ok(x) => match ExprRepr::from_expr(&pairs[i].1) {
                    Ok(y) => {
                        out.push((x, y));
                    },
                    Err(e) => {
                        assert(!expr_encodable(views[i as int].1));
                        return Err(e);
                    },
                },
                Err(e) => {
                    assert(!expr_encodable(views[i as int].0));
                    return Err(e);
                },
            }
            i = i + 1;
        }
        proof {
            assert forall|j: int| 0 <= j < views.len() implies expr_encodable(
                (#[trigger] views[j]).0,
            ) && expr_encodable(views[j].1) by {
                assert(expr_encodes(out@[j].0, views[j].0));
            }
        }
        Ok(out)
    }

    fn to_exprs<F: Fn(&LogicalPlan) -> Option<LogicalPlan>>(
        exprs: &Vec<ExprRepr>,
        reg: &FunctionRegistry,
        engine: &F,
    ) -> (r: Result<Vec<Expr>, CodecError>)
        requires
            answers(*engine),
        ensures
            forall|built: EngineFn|
                #[trigger] follows(*engine, built) ==> match r {
                    Ok(s) => exprs_decoded(exprs@, *reg, built) == Ok::<Seq<ExprView>, CodecError>(
                        exprs_view(s@),
                    ),
                    Err(e) => exprs_decoded(exprs@, *reg, built) == Err::<Seq<ExprView>, CodecError>(e),
                },
        decreases exprs, 0int,
    {
        let mut out: Vec<Expr> = Vec::new();
        let mut i: usize = 0;
        assert(exprs_view(out@) =~= Seq::<ExprView>::empty());
        while i < exprs.len()
            invariant
                i <= exprs@.len(),
                answers(*engine),
                forall|built: EngineFn|
                    #[trigger] follows(*engine, built) ==> exprs_decoded(
                        exprs@.take(i as int),
                        *reg,
                        built,
                    ) == Ok::<Seq<ExprView>, CodecError>(exprs_view(out@)),
            decreases exprs@.len() - i,
        {
            let ghost before = out@;
            let ghost prefix = exprs@.take(i + 1);
            proof {
                assert(prefix.drop_last() =~= exprs@.take(i as int));
                assert(prefix.last() == exprs@[i as int]);
            }
            match exprs[i].to_expr(reg, engine) {
                Ok(x) => {
                    out.push(x);
                    assert(exprs_view(out@) =~= exprs_view(before).push(x@));
                },
                Err(e) => {
                    proof {
                        assert forall|built: EngineFn| #[trigger]
                            follows(*engine, built) implies exprs_decoded(exprs@, *reg, built)
                            == Err::<Seq<ExprView>, CodecError>(e) by {
                            lemma_exprs_error(exprs@, i + 1, *reg, built);
                        }
                    }
                    return Err(e);
                },
            }
            i = i + 1;
        }
        assert(exprs@.take(i as int) =~= exprs@);
        Ok(out)
    }

    fn to_pairs<F: Fn(&LogicalPlan) -> Option<LogicalPlan>>(
        pairs: &Vec<(ExprRepr, ExprRepr)>,
        reg: &FunctionRegistry,
        engine: &F,
    ) -> (r: Result<Vec<(Expr, Expr)>, CodecError>)
        requires
            answers(*engine),
        ensures
            forall|built: EngineFn|
                #[trigger] follows(*engine, built) ==> match r {
                    Ok(s) => pairs_decoded(pairs@, *reg, built) == Ok::<
                        Seq<(ExprView, ExprView)>,
                        CodecError,
                    >(pairs_view(s@)),
                    Err(e) => pairs_decoded(pairs@, *reg, built) == Err::<
                        Seq<(ExprView, ExprView)>,
                        CodecError,
                    >(e),
                },
        decreases pairs, 0int,
    {
        let mut out: Vec<(Expr, Expr)> = Vec::new();
        let mut i: usize = 0;
        assert(pairs_view(out@) =~= Seq::<(ExprView, ExprView)>::empty());
        while i < pairs.len()
            invariant
                i <= pairs@.len(),
                answers(*engine),
                forall|built: EngineFn|
                    #[trigger] follows(*engine, built) ==> pairs_decoded(
                        pairs@.take(i as int),
                        *reg,
                        built,
                    ) == Ok::<Seq<(ExprView, ExprView)>, CodecError>(pairs_view(out@)),
            decreases pairs@.len() - i,
        {
            assert(decreases_to!(pairs => pairs@[i as int]));
            let ghost before = out@;
            let ghost prefix = pairs@.take(i + 1);
            proof {
                assert(prefix.drop_last() =~= pairs@.take(i as int));
                assert(prefix.last() == pairs@[i as int]);
            }
            match pairs[i].0.to_expr(reg, engine) {
                Ok(x) => match pairs[i].1.to_expr(reg, engine) {
                    Ok(y) => {
                        out.push((x, y));
                        assert(pairs_view(out@) =~= pairs_view(before).push((x@, y@)));
                    },
                    Err(e) => {
                        proof {
                            assert forall|built: EngineFn| #[trigger]
                                follows(*engine, built) implies pairs_decoded(pairs@, *reg, built)
                                == Err::<Seq<(ExprView, ExprView)>, CodecError>(e) by {
                                lemma_pairs_error(pairs@, i + 1, *reg, built);
                            }
                        }
                        return Err(e);
                    },
                },
                Err(e) => {
                    proof {
                        assert forall|built: EngineFn| #[trigger]
                            follows(*engine, built) implies pairs_decoded(pairs@, *reg, built)
                            == Err::<Seq<(ExprView, ExprView)>, CodecError>(e) by {
                            lemma_pairs_error(pairs@, i + 1, *reg, built);
                        }
                    }
                    return Err(e);
                },
            }
            i = i + 1;
        }
        assert(pairs@.take(i as int) =~= pairs@);
        Ok(out)
    }

    /// Encodes an expression; refuses exactly the expressions without a
    /// representation.
    #[verifier::rlimit(60)]
    #[verifier::spinoff_prover]
    pub fn from_expr(expr: &Expr) -> (r: Result<ExprRepr, CodecError>)
        ensures
            match r {
                Ok(repr) => expr_encodable(expr@) && expr_encodes(repr, expr@),
                Err(e) => e == CodecError::InvalidData && !expr_encodable(expr@),
            },
        decreases expr,
    {
        match expr {
            Expr::Column(c) => Ok(ExprRepr::Column(ColumnRepr::from_column(c))),
            Expr::Literal(v) => match ScalarValueRepr::from_value(v) {
                Ok(x) => Ok(ExprRepr::Literal(x)),
                Err(e) => Err(e),
            },
            Expr::BinaryExpr { left, op, right } => {
                let left = match ExprRepr::from_expr(left) {
                    Ok(x) => x,
                    Err(e) => return Err(e),
                };
                let right = match ExprRepr::from_expr(right) {
                    Ok(x) => x,
                    Err(e) => return Err(e),
                };
                Ok(
                    ExprRepr::BinaryExpr {
                        left: Box::new(left),
                        op: OperatorRepr::from_operator(*op),
                        right: Box::new(right),
                    },
                )
            },
            Expr::Cast { expr, data_type } => {
                let expr = match ExprRepr::from_expr(expr) {
                    Ok(x) => x,
                    Err(e) => return Err(e),
                };
                match DataTypeRepr::from_data_type(data_type) {
                    Ok(t) => Ok(ExprRepr::Cast { expr: Box::new(expr), data_type: t }),
                    Err(e) => Err(e),
                }
            },
            Expr::Alias { expr, relation, name } => match ExprRepr::from_expr(expr) {
                Ok(x) => Ok(
                    ExprRepr::Alias {
                        expr: Box::new(x),
                        relation: write_relation(relation),
                        name: name.clone(),
                    },
                ),
                Err(e) => Err(e),
            },
            Expr::AggregateFunction { func, args, distinct, filter, order_by, null_treatment } => {
                let args = match ExprRepr::from_exprs(args) {
                    Ok(x) => x,
                    Err(e) => return Err(e),
                };
                let filter = match filter {
                    Some(f) => match ExprRepr::from_expr(f) {
                        Ok(x) => Some(Box::new(x)),
                        Err(e) => return Err(e),
                    },
                    None => None,
                };
                let order_by = match order_by {
                    Some(o) => match SortRepr::from_sorts(o) {
                        Ok(x) => Some(x),
                        Err(e) => return Err(e),
                    },
                    None => None,
                };
                Ok(
                    ExprRepr::AggregateFunction {
                        func: func.clone(),
                        args,
                        distinct: *distinct,
                        filter,
                        order_by,
                    },
                )
            },
            Expr::Between { expr, negated, low, high } => {
                let expr = match ExprRepr::from_expr(expr) {
                    Ok(x) => x,
                    Err(e) => return Err(e),
                };
                let low = match ExprRepr::from_expr(low) {
                    Ok(x) => x,
                    Err(e) => return Err(e),
                };
                let high = match ExprRepr::from_expr(high) {
                    Ok(x) => x,
                    Err(e) => return Err(e),
                };
                Ok(
                    ExprRepr::Between {
                        expr: Box::new(expr),
                        negated: *negated,
                        low: Box::new(low),
                        high: Box::new(high),
                    },
                )
            },
            Expr::InList { expr, list, negated } => {
                let expr = match ExprRepr::from_expr(expr) {
                    Ok(x) => x,
                    Err(e) => return Err(e),
                };
                match ExprRepr::from_exprs(list) {
                    Ok(list) => Ok(
                        ExprRepr::InList { expr: Box::new(expr), list, negated: *negated },
                    ),
                    Err(e) => Err(e),
                }
            },
            Expr::ScalarFunction { func, args } => match ExprRepr::from_exprs(args) {
                Ok(args) => Ok(ExprRepr::ScalarFunction { func: func.clone(), args }),
                Err(e) => Err(e),
            },
            Expr::InSubquery { expr, subquery, negated } => {
                let expr = match ExprRepr::from_expr(expr) {
                    Ok(x) => x,
                    Err(e) => return Err(e),
                };
                match SubqueryRepr::from_subquery(subquery) {
                    Ok(subquery) => Ok(
                        ExprRepr::InSubquery { expr: Box::new(expr), subquery, negated: *negated },
                    ),
                    Err(e) => Err(e),
                }
            },
            Expr::Case { expr, when_then, else_expr } => {
                let expr = match expr {
                    Some(f) => match ExprRepr::from_expr(f) {
                        Ok(x) => Some(Box::new(x)),
                        Err(e) => return Err(e),
                    },
                    None => None,
                };
                let when_then = match ExprRepr::from_pairs(when_then) {
                    Ok(x) => x,
                    Err(e) => return Err(e),
                };
                let else_expr = match else_expr {
                    Some(f) => match ExprRepr::from_expr(f) {
                        Ok(x) => Some(Box::new(x)),
                        Err(e) => return Err(e),
                    },
                    None => None,
                };
                Ok(ExprRepr::Case { expr, when_then, else_expr })
            },
            Expr::Like { .. } => Err(CodecError::InvalidData),
            Expr::Other { .. } => Err(CodecError::InvalidData),
        }
    }

    fn to_binary<F: Fn(&LogicalPlan) -> Option<LogicalPlan>>(
        &self,
        reg: &FunctionRegistry,
        engine: &F,
    ) -> (r: Result<Expr, CodecError>)
        requires
            answers(*engine),
            *self is BinaryExpr,
        ensures
            forall|built: EngineFn|
                #[trigger] follows(*engine, built) ==> match r {
                    Ok(x) => expr_decoded(*self, *reg, built) == Ok::<ExprView, CodecError>(x@),
                    Err(e) => expr_decoded(*self, *reg, built) == Err::<ExprView, CodecError>(e),
                },
        decreases self, 0int,
    {
        match self {
            ExprRepr::BinaryExpr { left, op, right } => {
                let left = match left.to_expr(reg, engine) {
                    Ok(x) => x,
                    Err(e) => return Err(e),
                };
                let right = match right.to_expr(reg, engine) {
                    Ok(x) => x,
                    Err(e) => return Err(e),
                };
                let op = op.to_operator();
                Ok(Expr::BinaryExpr { left: Box::new(left), op, right: Box::new(right) })
            },
            _ => Err(CodecError::InvalidData),
        }
    }

    fn to_cast<F: Fn(&LogicalPlan) -> Option<LogicalPlan>>(
        &self,
        reg: &FunctionRegistry,
        engine: &F,
    ) -> (r: Result<Expr, CodecError>)
        requires
            answers(*engine),
            *self is Cast,
        ensures
            forall|built: EngineFn|
                #[trigger] follows(*engine, built) ==> match r {
                    Ok(x) => expr_decoded(*self, *reg, built) == Ok::<ExprView, CodecError>(x@),
                    Err(e) => expr_decoded(*self, *reg, built) == Err::<ExprView, CodecError>(e),
                },
        decreases self, 0int,
    {
        match self {
            ExprRepr::Cast { expr, data_type } => {
                let expr = match expr.to_expr(reg, engine) {
                    Ok(x) => x,
                    Err(e) => return Err(e),
                };
                match data_type.to_data_type() {
                    Ok(t) => Ok(Expr::Cast { expr: Box::new(expr), data_type: t }),
                    Err(e) => Err(e),
                }
            },
            _ => Err(CodecError::InvalidData),
        }
    }

    fn to_alias<F: Fn(&LogicalPlan) -> Option<LogicalPlan>>(
        &self,
        reg: &FunctionRegistry,
        engine: &F,
    ) -> (r: Result<Expr, CodecError>)
        requires
            answers(*engine),
            *self is Alias,
        ensures
            forall|built: EngineFn|
                #[trigger] follows(*engine, built) ==> match r {
                    Ok(x) => expr_decoded(*self, *reg, built) == Ok::<ExprView, CodecError>(x@),
                    Err(e) => expr_decoded(*self, *reg, built) == Err::<ExprView, CodecError>(e),
                },
        decreases self, 0int,
    {
        match self {
            ExprRepr::Alias { expr, relation, name } => match expr.to_expr(reg, engine) {
                Ok(x) => Ok(
                    Expr::Alias {
                        expr: Box::new(x),
                        relation: read_relation(relation),
                        name: name.clone(),
                    },
                ),
                Err(e) => Err(e),
            },
            _ => Err(CodecError::InvalidData),
        }
    }

    fn to_aggregate<F: Fn(&LogicalPlan) -> Option<LogicalPlan>>(
        &self,
        reg: &FunctionRegistry,
        engine: &F,
    ) -> (r: Result<Expr, CodecError>)
        requires
            answers(*engine),
            *self is AggregateFunction,
        ensures
            forall|built: EngineFn|
                #[trigger] follows(*engine, built) ==> match r {
                    Ok(x) => expr_decoded(*self, *reg, built) == Ok::<ExprView, CodecError>(x@),
                    Err(e) => expr_decoded(*self, *reg, built) == Err::<ExprView, CodecError>(e),
                },
        decreases self, 0int,
    {
        match self {
            ExprRepr::AggregateFunction { func, args, distinct, filter, order_by } => {
                let func = match look_up(&reg.aggregates, func.as_str()) {
                    Some(f) => f,
                    None => return Err(CodecError::UnknownAggregate),
                };
                let args = match ExprRepr::to_exprs(args, reg, engine) {
                    Ok(x) => x,
                    Err(e) => return Err(e),
                };
                let filter = match filter {
                    Some(f) => match f.to_expr(reg, engine) {
                        Ok(x) => Some(Box::new(x)),
                        Err(e) => return Err(e),
                    },
                    None => None,
                };
                let order_by = match order_by {
                    Some(o) => match SortRepr::to_sorts(o, reg, engine) {
                        Ok(x) => Some(x),
                        Err(e) => return Err(e),
                    },
                    None => None,
                };
                Ok(
                    Expr::AggregateFunction {
                        func,
                        args,
                        distinct: *distinct,
                        filter,
                        order_by,
                        null_treatment: None,
                    },
                )
            },
            _ => Err(CodecError::InvalidData),
        }
    }

    fn to_between<F: Fn(&LogicalPlan) -> Option<LogicalPlan>>(
        &self,
        reg: &FunctionRegistry,
        engine: &F,
    ) -> (r: Result<Expr, CodecError>)
        requires
            answers(*engine),
            *self is Between,
        ensures
            forall|built: EngineFn|
                #[trigger] follows(*engine, built) ==> match r {
                    Ok(x) => expr_decoded(*self, *reg, built) == Ok::<ExprView, CodecError>(x@),
                    Err(e) => expr_decoded(*self, *reg, built) == Err::<ExprView, CodecError>(e),
                },
        decreases self, 0int,
    {
        match self {
            ExprRepr::Between { expr, negated, low, high } => {
                let expr = match expr.to_expr(reg, engine) {
                    Ok(x) => x,
                    Err(e) => return Err(e),
                };
                let low = match low.to_expr(reg, engine) {
                    Ok(x) => x,
                    Err(e) => return Err(e),
                };
                let high = match high.to_expr(reg, engine) {
                    Ok(x) => x,
                    Err(e) => return Err(e),
                };
                Ok(
                    Expr::Between {
                        expr: Box::new(expr),
                        negated: *negated,
                        low: Box::new(low),
                        high: Box::new(high),
                    },
                )
            },
            _ => Err(CodecError::InvalidData),
        }
    }

    fn to_in_list<F: Fn(&LogicalPlan) -> Option<LogicalPlan>>(
        &self,
        reg: &FunctionRegistry,
        engine: &F,
    ) -> (r: Result<Expr, CodecError>)
        requires
            answers(*engine),
            *self is InList,
        ensures
            forall|built: EngineFn|
                #[trigger] follows(*engine, built) ==> match r {
                    Ok(x) => expr_decoded(*self, *reg, built) == Ok::<ExprView, CodecError>(x@),
                    Err(e) => expr_decoded(*self, *reg, built) == Err::<ExprView, CodecError>(e),
                },
        decreases self, 0int,
    {
        match self {
            ExprRepr::InList { expr, list, negated } => {
                let expr = match expr.to_expr(reg, engine) {
                    Ok(x) => x,
                    Err(e) => return Err(e),
                };
                match ExprRepr::to_exprs(list, reg, engine) {
                    Ok(list) => Ok(Expr::InList { expr: Box::new(expr), list, negated: *negated }),
                    Err(e) => Err(e),
                }
            },
            _ => Err(CodecError::InvalidData),
        }
    }

    fn to_scalar_function<F: Fn(&LogicalPlan) -> Option<LogicalPlan>>(
        &self,
        reg: &FunctionRegistry,
        engine: &F,
    ) -> (r: Result<Expr, CodecError>)
        requires
            answers(*engine),
            *self is ScalarFunction,
        ensures
            forall|built: EngineFn|
                #[trigger] follows(*engine, built) ==> match r {
                    Ok(x) => expr_decoded(*self, *reg, built) == Ok::<ExprView, CodecError>(x@),
                    Err(e) => expr_decoded(*self, *reg, built) == Err::<ExprView, CodecError>(e),
                },
        decreases self, 0int,
    {
        match self {
            ExprRepr::ScalarFunction { func, args } => {
                let func = match look_up(&reg.scalars, func.as_str()) {
                    Some(f) => f,
                    None => return Err(CodecError::UnknownScalar),
                };
                match ExprRepr::to_exprs(args, reg, engine) {
                    Ok(args) => Ok(Expr::ScalarFunction { func, args }),
                    Err(e) => Err(e),
                }
            },
            _ => Err(CodecError::InvalidData),
        }
    }

    fn to_in_subquery<F: Fn(&LogicalPlan) -> Option<LogicalPlan>>(
        &self,
        reg: &FunctionRegistry,
        engine: &F,
    ) -> (r: Result<Expr, CodecError>)
        requires
            answers(*engine),
            *self is InSubquery,
        ensures
            forall|built: EngineFn|
                #[trigger] follows(*engine, built) ==> match r {
                    Ok(x) => expr_decoded(*self, *reg, built) == Ok::<ExprView, CodecError>(x@),
                    Err(e) => expr_decoded(*self, *reg, built) == Err::<ExprView, CodecError>(e),
                },
        decreases self, 0int,
    {
        match self {
            ExprRepr::InSubquery { expr, subquery, negated } => {
                let subquery = match subquery.to_subquery(reg, engine) {
                    Ok(x) => x,
                    Err(e) => return Err(e),
                };
                match expr.to_expr(reg, engine) {
                    Ok(expr) => Ok(
                        Expr::InSubquery { expr: Box::new(expr), subquery, negated: *negated },
                    ),
                    Err(e) => Err(e),
                }
            },
            _ => Err(CodecError::InvalidData),
        }
    }

    fn to_case<F: Fn(&LogicalPlan) -> Option<LogicalPlan>>(
        &self,
        reg: &FunctionRegistry,
        engine: &F,
    ) -> (r: Result<Expr, CodecError>)
        requires
            answers(*engine),
            *self is Case,
        ensures
            forall|built: EngineFn|
                #[trigger] follows(*engine, built) ==> match r {
                    Ok(x) => expr_decoded(*self, *reg, built) == Ok::<ExprView, CodecError>(x@),
                    Err(e) => expr_decoded(*self, *reg, built) == Err::<ExprView, CodecError>(e),
                },
        decreases self, 0int,
    {
        match self {
            ExprRepr::Case { expr, when_then, else_expr } => {
                let expr = match expr {
                    Some(f) => match f.to_expr(reg, engine) {
                        Ok(x) => Some(Box::new(x)),
                        Err(e) => return Err(e),
                    },
                    None => None,
                };
                let when_then = match ExprRepr::to_pairs(when_then, reg, engine) {
                    Ok(x) => x,
                    Err(e) => return Err(e),
                };
                let else_expr = match else_expr {
                    Some(f) => match f.to_expr(reg, engine) {
                        Ok(x) => Some(Box::new(x)),
                        Err(e) => return Err(e),
                    },
                    None => None,
                };
                Ok(Expr::Case { expr, when_then, else_expr })
            },
            _ => Err(CodecError::InvalidData),
        }
    }

    /// Decodes an expression against a registry of functions. The engine is asked
    /// about the plans of its subqueries.
    #[verifier::rlimit(60)]
    #[verifier::spinoff_prover]
    pub fn to_expr<F: Fn(&LogicalPlan) -> Option<LogicalPlan>>(
        &self,
        reg: &FunctionRegistry,
        engine: &F,
    ) -> (r: Result<Expr, CodecError>)
        requires
            answers(*engine),
        ensures
            forall|built: EngineFn|
                #[trigger] follows(*engine, built) ==> match r {
                    Ok(x) => expr_decoded(*self, *reg, built) == Ok::<ExprView, CodecError>(x@),
                    Err(e) => expr_decoded(*self, *reg, built) == Err::<ExprView, CodecError>(e),
                },
        decreases self, 1int,
    {
        match self {
            ExprRepr::Column(c) => Ok(Expr::Column(c.to_column())),
            ExprRepr::Literal(v) => match v.to_value() {
                Ok(x) => Ok(Expr::Literal(x)),
                Err(e) => Err(e),
            },
            ExprRepr::BinaryExpr { .. } => self.to_binary(reg, engine),
            ExprRepr::Cast { .. } => self.to_cast(reg, engine),
            ExprRepr::Alias { .. } => self.to_alias(reg, engine),
            ExprRepr::AggregateFunction { .. } => self.to_aggregate(reg, engine),
            ExprRepr::Between { .. } => self.to_between(reg, engine),
            ExprRepr::InList { .. } => self.to_in_list(reg, engine),
            ExprRepr::ScalarFunction { .. } => self.to_scalar_function(reg, engine),
            ExprRepr::InSubquery { .. } => self.to_in_subquery(reg, engine),
            ExprRepr::Case { .. } => self.to_case(reg, engine),
        }
    }
}

impl LogicalPlanRepr {
    /// Encodes a plan; refuses exactly the plans without a representation.
    #[verifier::rlimit(60)]
    #[verifier::spinoff_prover]
    pub fn from_plan(plan: &LogicalPlan) -> (r: Result<LogicalPlanRepr, CodecError>)
        ensures
            match r {
                Ok(repr) => plan_encodable(plan@) && plan_encodes(repr, plan@),
                Err(e) => e == CodecError::InvalidData && !plan_encodable(plan@),
            },
        decreases plan,
    {
        match plan {
            LogicalPlan::TableScan { table_name, schema, projection, filters, fetch } => {
                let schema = match SchemaRepr::from_schema(schema) {
                    Ok(x) => x,
                    Err(e) => return Err(e),
                };
                let filters = match ExprRepr::from_exprs(filters) {
                    Ok(x) => x,
                    Err(e) => return Err(e),
                };
                Ok(
                    LogicalPlanRepr::TableScan {
                        table_name: table_name.to_text(),
                        schema,
                        projection: copy_indices_opt(projection),
                        filters,
                        fetch: *fetch,
                    },
                )
            },
            LogicalPlan::Projection { expr, input } => {
                let expr = match ExprRepr::from_exprs(expr) {
                    Ok(x) => x,
                    Err(e) => return Err(e),
                };
                match LogicalPlanRepr::from_plan(input) {
                    Ok(x) => Ok(LogicalPlanRepr::Projection { expr, input: Box::new(x) }),
                    Err(e) => Err(e),
                }
            },
            LogicalPlan::Filter { predicate, input, having } => {
                let predicate = match ExprRepr::from_expr(predicate) {
                    Ok(x) => x,
                    Err(e) => return Err(e),
                };
                match LogicalPlanRepr::from_plan(input) {
                    Ok(x) => Ok(
                        LogicalPlanRepr::Filter { predicate, input: Box::new(x), having: *having },
                    ),
                    Err(e) => Err(e),
                }
            },
            LogicalPlan::Aggregate { group_expr, aggr_expr, input } => {
                let group_expr = match ExprRepr::from_exprs(group_expr) {
                    Ok(x) => x,
                    Err(e) => return Err(e),
                };
                let aggr_expr = match ExprRepr::from_exprs(aggr_expr) {
                    Ok(x) => x,
                    Err(e) => return Err(e),
                };
                match LogicalPlanRepr::from_plan(input) {
                    Ok(x) => Ok(
                        LogicalPlanRepr::Aggregate { group_expr, aggr_expr, input: Box::new(x) },
                    ),
                    Err(e) => Err(e),
                }
            },
            LogicalPlan::Sort { expr, input, fetch } => {
                let expr = match SortRepr::from_sorts(expr) {
                    Ok(x) => x,
                    Err(e) => return Err(e),
                };
                match LogicalPlanRepr::from_plan(input) {
                    Ok(x) => Ok(
                        LogicalPlanRepr::Sort { expr, input: Box::new(x), fetch: *fetch },
                    ),
                    Err(e) => Err(e),
                }
            },
            LogicalPlan::Join {
                left,
                right,
                on,
                filter,
                join_type,
                join_constraint,
                null_equals_null,
            } => {
                let left = match LogicalPlanRepr::from_plan(left) {
                    Ok(x) => x,
                    Err(e) => return Err(e),
                };
                let right = match LogicalPlanRepr::from_plan(right) {
                    Ok(x) => x,
                    Err(e) => return Err(e),
                };
                let on = match ExprRepr::from_pairs(on) {
                    Ok(x) => x,
                    Err(e) => return Err(e),
                };
                let filter = match filter {
                    Some(f) => match ExprRepr::from_expr(f) {
                        Ok(x) => Some(x),
                        Err(e) => return Err(e),
                    },
                    None => None,
                };
                Ok(
                    LogicalPlanRepr::Join {
                        left: Box::new(left),
                        right: Box::new(right),
                        on,
                        filter,
                        join_type: JoinTypeRepr::from_join_type(*join_type),
                        join_constraint: JoinConstraintRepr::from_constraint(*join_constraint),
                        null_equals_null: *null_equals_null,
                    },
                )
            },
            LogicalPlan::SubqueryAlias { input, alias } => match LogicalPlanRepr::from_plan(input) {
                Ok(x) => Ok(
                    LogicalPlanRepr::SubqueryAlias { input: Box::new(x), alias: alias.to_text() },
                ),
                Err(e) => Err(e),
            },
            LogicalPlan::Limit { input, skip, fetch } => {
                let input = match LogicalPlanRepr::from_plan(input) {
                    Ok(x) => x,
                    Err(e) => return Err(e),
                };
                let skip = match skip {
                    Some(f) => match ExprRepr::from_expr(f) {
                        Ok(x) => Some(x),
                        Err(e) => return Err(e),
                    },
                    None => None,
                };
                let fetch = match fetch {
                    Some(f) => match ExprRepr::from_expr(f) {
                        Ok(x) => Some(x),
                        Err(e) => return Err(e),
                    },
                    None => None,
                };
                Ok(LogicalPlanRepr::Limit { input: Box::new(input), skip, fetch })
            },
            LogicalPlan::Rematerialize { input } => match LogicalPlanRepr::from_plan(input) {
                Ok(x) => Ok(LogicalPlanRepr::ExtensionRematerialize { input: Box::new(x) }),
                Err(e) => Err(e),
            },
            LogicalPlan::ResultCheck { input, mode } => {
                let input = match LogicalPlanRepr::from_plan(input) {
                    Ok(x) => Box::new(x),
                    Err(e) => return Err(e),
                };
                match mode {
                    ResultCheckMode::Bag => Ok(LogicalPlanRepr::ExtensionResultCheck { input }),
                    ResultCheckMode::Ordered => Ok(
                        LogicalPlanRepr::ExtensionOrderedResultCheck { input },
                    ),
                }
            },
            LogicalPlan::Other { .. } => Err(CodecError::InvalidData),
        }
    }

    fn to_table_scan<F: Fn(&LogicalPlan) -> Option<LogicalPlan>>(
        &self,
        reg: &FunctionRegistry,
        engine: &F,
    ) -> (r: Result<LogicalPlan, CodecError>)
        requires
            answers(*engine),
            *self is TableScan,
        ensures
            forall|built: EngineFn|
                #[trigger] follows(*engine, built) ==> match r {
                    Ok(x) => plan_decoded(*self, *reg, built) == Ok::<PlanView, CodecError>(x@),
                    Err(e) => plan_decoded(*self, *reg, built) == Err::<PlanView, CodecError>(e),
                },
        decreases self, 0int,
    {
        match self {
            LogicalPlanRepr::TableScan { table_name, schema, projection, filters, fetch } => {
                let schema = match schema.to_schema() {
                    Ok(x) => x,
                    Err(e) => return Err(e),
                };
                let filters = match ExprRepr::to_exprs(filters, reg, engine) {
                    Ok(x) => x,
                    Err(e) => return Err(e),
                };
                ask(
                    LogicalPlan::TableScan {
                        table_name: reference_from_text(table_name.as_str()),
                        schema,
                        projection: copy_indices_opt(projection),
                        filters,
                        fetch: *fetch,
                    },
                    engine,
                )
            },
            _ => Err(CodecError::InvalidData),
        }
    }

    fn to_projection<F: Fn(&LogicalPlan) -> Option<LogicalPlan>>(
        &self,
        reg: &FunctionRegistry,
        engine: &F,
    ) -> (r: Result<LogicalPlan, CodecError>)
        requires
            answers(*engine),
            *self is Projection,
        ensures
            forall|built: EngineFn|
                #[trigger] follows(*engine, built) ==> match r {
                    Ok(x) => plan_decoded(*self, *reg, built) == Ok::<PlanView, CodecError>(x@),
                    Err(e) => plan_decoded(*self, *reg, built) == Err::<PlanView, CodecError>(e),
                },
        decreases self, 0int,
    {
        match self {
            LogicalPlanRepr::Projection { expr, input } => {
                let input = match input.to_plan(reg, engine) {
                    Ok(x) => x,
                    Err(e) => return Err(e),
                };
                match ExprRepr::to_exprs(expr, reg, engine) {
                    Ok(expr) => ask(
                        LogicalPlan::Projection { expr, input: Box::new(input) },
                        engine,
                    ),
                    Err(e) => Err(e),
                }
            },
            _ => Err(CodecError::InvalidData),
        }
    }

    fn to_filter<F: Fn(&LogicalPlan) -> Option<LogicalPlan>>(
        &self,
        reg: &FunctionRegistry,
        engine: &F,
    ) -> (r: Result<LogicalPlan, CodecError>)
        requires
            answers(*engine),
            *self is Filter,
        ensures
            forall|built: EngineFn|
                #[trigger] follows(*engine, built) ==> match r {
                    Ok(x) => plan_decoded(*self, *reg, built) == Ok::<PlanView, CodecError>(x@),
                    Err(e) => plan_decoded(*self, *reg, built) == Err::<PlanView, CodecError>(e),
                },
        decreases self, 0int,
    {
        match self {
            LogicalPlanRepr::Filter { predicate, input, having } => {
                let input = match input.to_plan(reg, engine) {
                    Ok(x) => x,
                    Err(e) => return Err(e),
                };
                match predicate.to_expr(reg, engine) {
                    Ok(predicate) => ask(
                        LogicalPlan::Filter { predicate, input: Box::new(input), having: *having },
                        engine,
                    ),
                    Err(e) => Err(e),
                }
            },
            _ => Err(CodecError::InvalidData),
        }
    }

    fn to_aggregate<F: Fn(&LogicalPlan) -> Option<LogicalPlan>>(
        &self,
        reg: &FunctionRegistry,
        engine: &F,
    ) -> (r: Result<LogicalPlan, CodecError>)
        requires
            answers(*engine),
            *self is Aggregate,
        ensures
            forall|built: EngineFn|
                #[trigger] follows(*engine, built) ==> match r {
                    Ok(x) => plan_decoded(*self, *reg, built) == Ok::<PlanView, CodecError>(x@),
                    Err(e) => plan_decoded(*self, *reg, built) == Err::<PlanView, CodecError>(e),
                },
        decreases self, 0int,
    {
        match self {
            LogicalPlanRepr::Aggregate { group_expr, aggr_expr, input } => {
                let input = match input.to_plan(reg, engine) {
                    Ok(x) => x,
                    Err(e) => return Err(e),
                };
                let group_expr = match ExprRepr::to_exprs(group_expr, reg, engine) {
                    Ok(x) => x,
                    Err(e) => return Err(e),
                };
                match ExprRepr::to_exprs(aggr_expr, reg, engine) {
                    Ok(aggr_expr) => ask(
                        LogicalPlan::Aggregate { group_expr, aggr_expr, input: Box::new(input) },
                        engine,
                    ),
                    Err(e) => Err(e),
                }
            },
            _ => Err(CodecError::InvalidData),
        }
    }

    fn to_sort<F: Fn(&LogicalPlan) -> Option<LogicalPlan>>(
        &self,
        reg: &FunctionRegistry,
        engine: &F,
    ) -> (r: Result<LogicalPlan, CodecError>)
        requires
            answers(*engine),
            *self is Sort,
        ensures
            forall|built: EngineFn|
                #[trigger] follows(*engine, built) ==> match r {
                    Ok(x) => plan_decoded(*self, *reg, built) == Ok::<PlanView, CodecError>(x@),
                    Err(e) => plan_decoded(*self, *reg, built) == Err::<PlanView, CodecError>(e),
                },
        decreases self, 0int,
    {
        match self {
            LogicalPlanRepr::Sort { expr, input, fetch } => {
                let input = match input.to_plan(reg, engine) {
                    Ok(x) => x,
                    Err(e) => return Err(e),
                };
                match SortRepr::to_sorts(expr, reg, engine) {
                    Ok(expr) => Ok(
                        LogicalPlan::Sort { expr, input: Box::new(input), fetch: *fetch },
                    ),
                    Err(e) => Err(e),
                }
            },
            _ => Err(CodecError::InvalidData),
        }
    }

    fn to_join<F: Fn(&LogicalPlan) -> Option<LogicalPlan>>(
        &self,
        reg: &FunctionRegistry,
        engine: &F,
    ) -> (r: Result<LogicalPlan, CodecError>)
        requires
            answers(*engine),
            *self is Join,
        ensures
            forall|built: EngineFn|
                #[trigger] follows(*engine, built) ==> match r {
                    Ok(x) => plan_decoded(*self, *reg, built) == Ok::<PlanView, CodecError>(x@),
                    Err(e) => plan_decoded(*self, *reg, built) == Err::<PlanView, CodecError>(e),
                },
        decreases self, 0int,
    {
        match self {
            LogicalPlanRepr::Join {
                left,
                right,
                on,
                filter,
                join_type,
                join_constraint,
                null_equals_null,
            } => {
                let left = match left.to_plan(reg, engine) {
                    Ok(x) => x,
                    Err(e) => return Err(e),
                };
                let right = match right.to_plan(reg, engine) {
                    Ok(x) => x,
                    Err(e) => return Err(e),
                };
                let on = match ExprRepr::to_pairs(on, reg, engine) {
                    Ok(x) => x,
                    Err(e) => return Err(e),
                };
                let join = LogicalPlan::Join {
                    left: Box::new(left),
                    right: Box::new(right),
                    on,
                    filter: None,
                    join_type: join_type.to_join_type(),
                    join_constraint: join_constraint.to_join_constraint(),
                    null_equals_null: *null_equals_null,
                };
                if engine(&join).is_none() {
                    return Err(CodecError::Refused);
                }
                match filter {
                    Some(f) => match f.to_expr(reg, engine) {
                        Ok(x) => Ok(filter_join(join, x)),
                        Err(e) => Err(e),
                    },
                    None => Ok(join),
                }
            },
            _ => Err(CodecError::InvalidData),
        }
    }

    fn to_subquery_alias<F: Fn(&LogicalPlan) -> Option<LogicalPlan>>(
        &self,
        reg: &FunctionRegistry,
        engine: &F,
    ) -> (r: Result<LogicalPlan, CodecError>)
        requires
            answers(*engine),
            *self is SubqueryAlias,
        ensures
            forall|built: EngineFn|
                #[trigger] follows(*engine, built) ==> match r {
                    Ok(x) => plan_decoded(*self, *reg, built) == Ok::<PlanView, CodecError>(x@),
                    Err(e) => plan_decoded(*self, *reg, built) == Err::<PlanView, CodecError>(e),
                },
        decreases self, 0int,
    {
        match self {
            LogicalPlanRepr::SubqueryAlias { input, alias } => match input.to_plan(reg, engine) {
                Ok(x) => ask(
                    LogicalPlan::SubqueryAlias {
                        input: Box::new(x),
                        alias: reference_from_text(alias.as_str()),
                    },
                    engine,
                ),
                Err(e) => Err(e),
            },
            _ => Err(CodecError::InvalidData),
        }
    }

    fn to_limit<F: Fn(&LogicalPlan) -> Option<LogicalPlan>>(
        &self,
        reg: &FunctionRegistry,
        engine: &F,
    ) -> (r: Result<LogicalPlan, CodecError>)
        requires
            answers(*engine),
            *self is Limit,
        ensures
            forall|built: EngineFn|
                #[trigger] follows(*engine, built) ==> match r {
                    Ok(x) => plan_decoded(*self, *reg, built) == Ok::<PlanView, CodecError>(x@),
                    Err(e) => plan_decoded(*self, *reg, built) == Err::<PlanView, CodecError>(e),
                },
        decreases self, 0int,
    {
        match self {
            LogicalPlanRepr::Limit { input, skip, fetch } => {
                let input = match input.to_plan(reg, engine) {
                    Ok(x) => x,
                    Err(e) => return Err(e),
                };
                let skip = match skip {
                    Some(f) => match f.to_expr(reg, engine) {
                        Ok(x) => Some(Box::new(x)),
                        Err(e) => return Err(e),
                    },
                    None => None,
                };
                let fetch = match fetch {
                    Some(f) => match f.to_expr(reg, engine) {
                        Ok(x) => Some(Box::new(x)),
                        Err(e) => return Err(e),
                    },
                    None => None,
                };
                Ok(LogicalPlan::Limit { input: Box::new(input), skip, fetch })
            },
            _ => Err(CodecError::InvalidData),
        }
    }

    /// Decodes a plan against a registry of functions. The operators that the
    /// query engine builds itself are handed to it from the inputs up, each with
    /// the parts it was decoded from. What the engine makes of one takes its
    /// place: a filter, for one, loses the aliases in its predicate. An operator
    /// that the engine refuses, such as a filter whose predicate is not Boolean,
    /// ends the decoding. Of a join the engine sees whether its two sides go
    /// together, before the filter of the join is decoded.
    #[verifier::rlimit(60)]
    #[verifier::spinoff_prover]
    pub fn to_plan<F: Fn(&LogicalPlan) -> Option<LogicalPlan>>(
        &self,
        reg: &FunctionRegistry,
        engine: &F,
    ) -> (r: Result<LogicalPlan, CodecError>)
        requires
            answers(*engine),
        ensures
            forall|built: EngineFn|
                #[trigger] follows(*engine, built) ==> match r {
                    Ok(x) => plan_decoded(*self, *reg, built) == Ok::<PlanView, CodecError>(x@),
                    Err(e) => plan_decoded(*self, *reg, built) == Err::<PlanView, CodecError>(e),
                },
        decreases self, 1int,
    {
        match self {
            LogicalPlanRepr::TableScan { .. } => self.to_table_scan(reg, engine),
            LogicalPlanRepr::Projection { .. } => self.to_projection(reg, engine),
            LogicalPlanRepr::Filter { .. } => self.to_filter(reg, engine),
            LogicalPlanRepr::Aggregate { .. } => self.to_aggregate(reg, engine),
            LogicalPlanRepr::Sort { .. } => self.to_sort(reg, engine),
            LogicalPlanRepr::Join { .. } => self.to_join(reg, engine),
            LogicalPlanRepr::SubqueryAlias { .. } => self.to_subquery_alias(reg, engine),
            LogicalPlanRepr::Limit { .. } => self.to_limit(reg, engine),
            LogicalPlanRepr::ExtensionRematerialize { input } => match input.to_plan(reg, engine) {
                Ok(x) => Ok(LogicalPlan::Rematerialize { input: Box::new(x) }),
                Err(e) => Err(e),
            },
            LogicalPlanRepr::ExtensionResultCheck { input } => match input.to_plan(reg, engine) {
                Ok(x) => Ok(
                    LogicalPlan::ResultCheck { input: Box::new(x), mode: ResultCheckMode::Bag },
                ),
                Err(e) => Err(e),
            },
            LogicalPlanRepr::ExtensionOrderedResultCheck { input } => match input.to_plan(reg, engine) {
                Ok(x) => Ok(
                    LogicalPlan::ResultCheck { input: Box::new(x), mode: ResultCheckMode::Ordered },
                ),
                Err(e) => Err(e),
            },
        }
    }
}

/// No operator that the engine refuses is decoded: a scan, a projection, a
/// filter, an aggregate or an alias is what the engine made of one, and a join
/// is one that the engine accepted without its filter.
pub proof fn refused_operators_are_not_decoded(
    r: LogicalPlanRepr,
    reg: FunctionRegistry,
    built: EngineFn,
)
    ensures
        plan_decoded(r, reg, built) matches Ok(v) ==> match r {
            LogicalPlanRepr::TableScan { .. }
            | LogicalPlanRepr::Projection { .. }
            | LogicalPlanRepr::Filter { .. }
            | LogicalPlanRepr::Aggregate { .. }
            | LogicalPlanRepr::SubqueryAlias { .. } => exists|op: PlanView| #[trigger]
                built(op) == Some(v),
            LogicalPlanRepr::Join { .. } => built(with_filter(v, None)) is Some,
            _ => true,
        },
{
}

// ---------------------------------------------------------------------------
// Decoding undoes encoding
// ---------------------------------------------------------------------------

/// Whether a reference is read back from its own text.
pub open spec fn reference_stable(parts: Seq<Seq<char>>) -> bool {
    read_reference(dotted(parts)) == parts
}

/// Whether an optional reference is read back from its own text.
pub open spec fn relation_stable(r: Option<Seq<Seq<char>>>) -> bool {
    r matches Some(p) ==> reference_stable(p)
}

/// Whether everything an expression refers to by name is found again: its
/// table references are read back from their own text, its functions are
/// registered under their own names, no aggregate states how it treats nulls,
/// and the plans of its subqueries are stable.
pub open spec fn expr_stable(v: ExprView, reg: FunctionRegistry, built: EngineFn) -> bool
    decreases v,
{
    match v {
        ExprView::Column(c) => relation_stable(c.relation),
        ExprView::Literal(_) => true,
        ExprView::BinaryExpr { left, op, right } => {
            &&& expr_stable(*left, reg, built)
            &&& expr_stable(*right, reg, built)
        },
        ExprView::Cast { expr, data_type } => expr_stable(*expr, reg, built),
        ExprView::Alias { expr, relation, name } => {
            &&& expr_stable(*expr, reg, built)
            &&& relation_stable(relation)
        },
        ExprView::AggregateFunction { func, args, distinct, filter, order_by, null_treatment } => {
            &&& looked_up(reg.aggregates@, func) == Some(func)
            &&& exprs_stable(args, reg, built)
            &&& filter matches Some(f) ==> expr_stable(*f, reg, built)
            &&& order_by matches Some(o) ==> sorts_stable(o, reg, built)
            &&& null_treatment is None
        },
        ExprView::Between { expr, negated, low, high } => {
            &&& expr_stable(*expr, reg, built)
            &&& expr_stable(*low, reg, built)
            &&& expr_stable(*high, reg, built)
        },
        ExprView::InList { expr, list, negated } => {
            &&& expr_stable(*expr, reg, built)
            &&& exprs_stable(list, reg, built)
        },
        ExprView::ScalarFunction { func, args } => {
            &&& looked_up(reg.scalars@, func) == Some(func)
            &&& exprs_stable(args, reg, built)
        },
        ExprView::InSubquery { expr, subquery, negated } => {
            &&& expr_stable(*expr, reg, built)
            &&& subquery_stable(subquery, reg, built)
        },
        ExprView::Case { expr, when_then, else_expr } => {
            &&& expr matches Some(e) ==> expr_stable(*e, reg, built)
            &&& pairs_stable(when_then, reg, built)
            &&& else_expr matches Some(e) ==> expr_stable(*e, reg, built)
        },
        ExprView::Like { .. } => true,
        ExprView::Other { .. } => true,
    }
}

/// `expr_stable` for every expression of a list.
pub open spec fn exprs_stable(vs: Seq<ExprView>, reg: FunctionRegistry, built: EngineFn) -> bool
    decreases vs,
{
    forall|i: int| 0 <= i < vs.len() ==> expr_stable(#[trigger] vs[i], reg, built)
}

/// `expr_stable` for both expressions of every pair.
pub open spec fn pairs_stable(
    vs: Seq<(ExprView, ExprView)>,
    reg: FunctionRegistry,
    built: EngineFn,
) -> bool
    decreases vs,
{
    forall|i: int|
        0 <= i < vs.len() ==> expr_stable((#[trigger] vs[i]).0, reg, built) && expr_stable(
            vs[i].1,
            reg,
            built,
        )
}

/// `expr_stable` for every sort key.
pub open spec fn sorts_stable(vs: Seq<SortView>, reg: FunctionRegistry, built: EngineFn) -> bool
    decreases vs,
{
    forall|i: int| 0 <= i < vs.len() ==> expr_stable((#[trigger] vs[i]).expr, reg, built)
}

/// `plan_stable` and `expr_stable` for the parts of a subquery.
pub open spec fn subquery_stable(v: SubqueryView, reg: FunctionRegistry, built: EngineFn) -> bool
    decreases v,
{
    plan_stable(*v.subquery, reg, built) && exprs_stable(v.outer_ref_columns, reg, built)
}

/// Whether everything a plan refers to by name is found again, and the query
/// engine keeps every operator as it is.
pub open spec fn plan_stable(v: PlanView, reg: FunctionRegistry, built: EngineFn) -> bool
    decreases v,
{
    match v {
        PlanView::TableScan { table_name, schema, projection, filters, fetch } => {
            &&& reference_stable(table_name)
            &&& exprs_stable(filters, reg, built)
            &&& built(v) == Some(v)
        },
        PlanView::Projection { expr, input } => {
            &&& exprs_stable(expr, reg, built)
            &&& plan_stable(*input, reg, built)
            &&& built(v) == Some(v)
        },
        PlanView::Filter { predicate, input, having } => {
            &&& expr_stable(predicate, reg, built)
            &&& plan_stable(*input, reg, built)
            &&& built(v) == Some(v)
        },
        PlanView::Aggregate { group_expr, aggr_expr, input } => {
            &&& exprs_stable(group_expr, reg, built)
            &&& exprs_stable(aggr_expr, reg, built)
            &&& plan_stable(*input, reg, built)
            &&& built(v) == Some(v)
        },
        PlanView::Sort { expr, input, fetch } => {
            &&& sorts_stable(expr, reg, built)
            &&& plan_stable(*input, reg, built)
        },
        PlanView::Join {
            left,
            right,
            on,
            filter,
            join_type,
            join_constraint,
            null_equals_null,
        } => {
            &&& plan_stable(*left, reg, built)
            &&& plan_stable(*right, reg, built)
            &&& pairs_stable(on, reg, built)
            &&& filter matches Some(f) ==> expr_stable(f, reg, built)
            &&& built(with_filter(v, None)) is Some
        },
        PlanView::SubqueryAlias { input, alias } => {
            &&& plan_stable(*input, reg, built)
            &&& reference_stable(alias)
            &&& built(v) == Some(v)
        },
        PlanView::Limit { input, skip, fetch } => {
            &&& plan_stable(*input, reg, built)
            &&& skip matches Some(e) ==> expr_stable(*e, reg, built)
            &&& fetch matches Some(e) ==> expr_stable(*e, reg, built)
        },
        PlanView::Rematerialize { input } => plan_stable(*input, reg, built),
        PlanView::ResultCheck { input, mode } => plan_stable(*input, reg, built),
        PlanView::Other { .. } => true,
    }
}

/// Decoding the representation of an expression gives the expression back,
/// when everything it refers to by name is found again and the engine keeps
/// its plans.
pub proof fn expr_round_trip(
    r: ExprRepr,
    v: ExprView,
    reg: FunctionRegistry,
    built: EngineFn,
)
    requires
        expr_encodes(r, v),
        expr_stable(v, reg, built),
    ensures
        expr_decoded(r, reg, built) == Ok::<ExprView, CodecError>(v),
    decreases r,
{
    match (r, v) {
        (ExprRepr::Column(c), ExprView::Column(w)) => {},
        (ExprRepr::Literal(s), ExprView::Literal(w)) => {
            scalar_round_trip(s, w);
        },
        (
            ExprRepr::BinaryExpr { left: a, op: b, right: c },
            ExprView::BinaryExpr { left, op, right },
        ) => {
            expr_round_trip(*a, *left, reg, built);
            expr_round_trip(*c, *right, reg, built);
            operator_round_trip(op, b);
        },
        (ExprRepr::Cast { expr: a, data_type: b }, ExprView::Cast { expr, data_type }) => {
            expr_round_trip(*a, *expr, reg, built);
            type_round_trip(b, data_type);
        },
        (
            ExprRepr::Alias { expr: a, relation: b, name: c },
            ExprView::Alias { expr, relation, name },
        ) => {
            expr_round_trip(*a, *expr, reg, built);
        },
        (
            ExprRepr::AggregateFunction { func: a, args: b, distinct: c, filter: d, order_by: e },
            ExprView::AggregateFunction { func, args, distinct, filter, order_by, null_treatment },
        ) => {
            exprs_round_trip(b@, args, reg, built);
            if let (Some(x), Some(y)) = (d, filter) {
                expr_round_trip(*x, *y, reg, built);
            }
            if let (Some(x), Some(y)) = (e, order_by) {
                sorts_round_trip(x@, y, reg, built);
            }
        },
        (
            ExprRepr::Between { expr: a, negated: b, low: c, high: d },
            ExprView::Between { expr, negated, low, high },
        ) => {
            expr_round_trip(*a, *expr, reg, built);
            expr_round_trip(*c, *low, reg, built);
            expr_round_trip(*d, *high, reg, built);
        },
        (
            ExprRepr::InList { expr: a, list: b, negated: c },
            ExprView::InList { expr, list, negated },
        ) => {
            expr_round_trip(*a, *expr, reg, built);
            exprs_round_trip(b@, list, reg, built);
        },
        (
            ExprRepr::ScalarFunction { func: a, args: b },
            ExprView::ScalarFunction { func, args },
        ) => {
            exprs_round_trip(b@, args, reg, built);
        },
        (
            ExprRepr::InSubquery { expr: a, subquery: b, negated: c },
            ExprView::InSubquery { expr, subquery, negated },
        ) => {
            expr_round_trip(*a, *expr, reg, built);
            subquery_round_trip(b, subquery, reg, built);
        },
        (
            ExprRepr::Case { expr: a, when_then: b, else_expr: c },
            ExprView::Case { expr, when_then, else_expr },
        ) => {
            if let (Some(x), Some(y)) = (a, expr) {
                expr_round_trip(*x, *y, reg, built);
            }
            pairs_round_trip(b@, when_then, reg, built);
            if let (Some(x), Some(y)) = (c, else_expr) {
                expr_round_trip(*x, *y, reg, built);
            }
        },
        _ => {},
    }
}

/// `expr_round_trip` for a list.
pub proof fn exprs_round_trip(
    rs: Seq<ExprRepr>,
    vs: Seq<ExprView>,
    reg: FunctionRegistry,
    built: EngineFn,
)
    requires
        exprs_encode(rs, vs),
        exprs_stable(vs, reg, built),
    ensures
        exprs_decoded(rs, reg, built) == Ok::<Seq<ExprView>, CodecError>(vs),
    decreases rs,
{
    if rs.len() > 0 {
        let t = vs.drop_last();
        assert forall|i: int| 0 <= i < t.len() implies expr_stable(#[trigger] t[i], reg, built) by {
            assert(t[i] == vs[i]);
        }
        assert forall|i: int| 0 <= i < rs.drop_last().len() implies expr_encodes(
            #[trigger] rs.drop_last()[i],
            t[i],
        ) by {
            assert(rs.drop_last()[i] == rs[i]);
        }
        exprs_round_trip(rs.drop_last(), t, reg, built);
        assert(expr_encodes(rs[rs.len() - 1], vs[rs.len() - 1]));
        assert(expr_stable(vs[rs.len() - 1], reg, built));
        expr_round_trip(rs.last(), vs.last(), reg, built);
        assert(t.push(vs.last()) =~= vs);
    } else {
        assert(vs =~= Seq::empty());
    }
}

/// `expr_round_trip` for a list of pairs.
pub proof fn pairs_round_trip(
    rs: Seq<(ExprRepr, ExprRepr)>,
    vs: Seq<(ExprView, ExprView)>,
    reg: FunctionRegistry,
    built: EngineFn,
)
    requires
        pairs_encode(rs, vs),
        pairs_stable(vs, reg, built),
    ensures
        pairs_decoded(rs, reg, built) == Ok::<Seq<(ExprView, ExprView)>, CodecError>(vs),
    decreases rs,
{
    if rs.len() > 0 {
        let t = vs.drop_last();
        assert forall|i: int| 0 <= i < t.len() implies expr_stable((#[trigger] t[i]).0, reg, built)
            && expr_stable(t[i].1, reg, built) by {
            assert(t[i] == vs[i]);
        }
        assert forall|i: int| 0 <= i < rs.drop_last().len() implies expr_encodes(
            (#[trigger] rs.drop_last()[i]).0,
            t[i].0,
        ) && expr_encodes(rs.drop_last()[i].1, t[i].1) by {
            assert(rs.drop_last()[i] == rs[i]);
        }
        pairs_round_trip(rs.drop_last(), t, reg, built);
        let n = rs.len() - 1;
        assert(expr_encodes(rs[n].0, vs[n].0));
        assert(expr_stable(vs[n].0, reg, built));
        assert(decreases_to!(rs => rs[n]));
        expr_round_trip(rs[n].0, vs[n].0, reg, built);
        expr_round_trip(rs[n].1, vs[n].1, reg, built);
        assert(t.push(vs.last()) =~= vs);
    } else {
        assert(vs =~= Seq::empty());
    }
}

/// `expr_round_trip` for a sort key.
pub proof fn sort_round_trip(
    r: SortRepr,
    v: SortView,
    reg: FunctionRegistry,
    built: EngineFn,
)
    requires
        sort_encodes(r, v),
        expr_stable(v.expr, reg, built),
    ensures
        sort_decoded(r, reg, built) == Ok::<SortView, CodecError>(v),
    decreases r,
{
    expr_round_trip(r.expr, v.expr, reg, built);
}

/// `plan_round_trip` for a subquery.
pub proof fn subquery_round_trip(
    r: SubqueryRepr,
    v: SubqueryView,
    reg: FunctionRegistry,
    built: EngineFn,
)
    requires
        subquery_encodes(r, v),
        subquery_stable(v, reg, built),
    ensures
        subquery_decoded(r, reg, built) == Ok::<SubqueryView, CodecError>(v),
    decreases r,
{
    plan_round_trip(*r.subquery, *v.subquery, reg, built);
    exprs_round_trip(r.outer_ref_columns@, v.outer_ref_columns, reg, built);
}

/// `expr_round_trip` for a list of sort keys.
pub proof fn sorts_round_trip(
    rs: Seq<SortRepr>,
    vs: Seq<SortView>,
    reg: FunctionRegistry,
    built: EngineFn,
)
    requires
        sorts_encode(rs, vs),
        sorts_stable(vs, reg, built),
    ensures
        sorts_decoded(rs, reg, built) == Ok::<Seq<SortView>, CodecError>(vs),
    decreases rs,
{
    if rs.len() > 0 {
        let t = vs.drop_last();
        assert forall|i: int| 0 <= i < t.len() implies expr_stable(
            (#[trigger] t[i]).expr,
            reg,
            built,
        ) by {
            assert(t[i] == vs[i]);
        }
        assert forall|i: int| 0 <= i < rs.drop_last().len() implies sort_encodes(
            #[trigger] rs.drop_last()[i],
            t[i],
        ) by {
            assert(rs.drop_last()[i] == rs[i]);
        }
        sorts_round_trip(rs.drop_last(), t, reg, built);
        let n = rs.len() - 1;
        assert(sort_encodes(rs[n], vs[n]));
        assert(expr_stable(vs[n].expr, reg, built));
        sort_round_trip(rs[n], vs[n], reg, built);
        assert(t.push(vs.last()) =~= vs);
    } else {
        assert(vs =~= Seq::empty());
    }
}

/// Decoding the representation of a plan gives the plan back, when everything
/// it refers to by name is found again and the engine keeps its operators.
pub proof fn plan_round_trip(
    r: LogicalPlanRepr,
    v: PlanView,
    reg: FunctionRegistry,
    built: EngineFn,
)
    requires
        plan_encodes(r, v),
        plan_stable(v, reg, built),
    ensures
        plan_decoded(r, reg, built) == Ok::<PlanView, CodecError>(v),
    decreases r,
{
    match (r, v) {
        (
            LogicalPlanRepr::TableScan {
                table_name: a,
                schema: b,
                projection: c,
                filters: d,
                fetch: e,
            },
            PlanView::TableScan { table_name, schema, projection, filters, fetch },
        ) => {
            schema_round_trip(b, schema);
            exprs_round_trip(d@, filters, reg, built);
        },
        (
            LogicalPlanRepr::Projection { expr: a, input: b },
            PlanView::Projection { expr, input },
        ) => {
            exprs_round_trip(a@, expr, reg, built);
            plan_round_trip(*b, *input, reg, built);
        },
        (
            LogicalPlanRepr::Filter { predicate: a, input: b, having: c },
            PlanView::Filter { predicate, input, having },
        ) => {
            expr_round_trip(a, predicate, reg, built);
            plan_round_trip(*b, *input, reg, built);
        },
        (
            LogicalPlanRepr::Aggregate { group_expr: a, aggr_expr: b, input: c },
            PlanView::Aggregate { group_expr, aggr_expr, input },
        ) => {
            exprs_round_trip(a@, group_expr, reg, built);
            exprs_round_trip(b@, aggr_expr, reg, built);
            plan_round_trip(*c, *input, reg, built);
        },
        (
            LogicalPlanRepr::Sort { expr: a, input: b, fetch: c },
            PlanView::Sort { expr, input, fetch },
        ) => {
            sorts_round_trip(a@, expr, reg, built);
            plan_round_trip(*b, *input, reg, built);
        },
        (
            LogicalPlanRepr::Join {
                left: a,
                right: b,
                on: c,
                filter: d,
                join_type: e,
                join_constraint: f,
                null_equals_null: g,
            },
            PlanView::Join {
                left,
                right,
                on,
                filter,
                join_type,
                join_constraint,
                null_equals_null,
            },
        ) => {
            plan_round_trip(*a, *left, reg, built);
            plan_round_trip(*b, *right, reg, built);
            pairs_round_trip(c@, on, reg, built);
            if let (Some(x), Some(y)) = (d, filter) {
                expr_round_trip(x, y, reg, built);
            }
            join_type_round_trip(join_type, e);
            join_constraint_round_trip(join_constraint, f);
        },
        (
            LogicalPlanRepr::SubqueryAlias { input: a, alias: b },
            PlanView::SubqueryAlias { input, alias },
        ) => {
            plan_round_trip(*a, *input, reg, built);
        },
        (
            LogicalPlanRepr::Limit { input: a, skip: b, fetch: c },
            PlanView::Limit { input, skip, fetch },
        ) => {
            plan_round_trip(*a, *input, reg, built);
            if let (Some(x), Some(y)) = (b, skip) {
                expr_round_trip(x, *y, reg, built);
            }
            if let (Some(x), Some(y)) = (c, fetch) {
                expr_round_trip(x, *y, reg, built);
            }
        },
        (
            LogicalPlanRepr::ExtensionRematerialize { input: a },
            PlanView::Rematerialize { input },
        ) => {
            plan_round_trip(*a, *input, reg, built);
        },
        (
            LogicalPlanRepr::ExtensionResultCheck { input: a },
            PlanView::ResultCheck { input, mode },
        ) => {
            plan_round_trip(*a, *input, reg, built);
        },
        (
            LogicalPlanRepr::ExtensionOrderedResultCheck { input: a },
            PlanView::ResultCheck { input, mode },
        ) => {
            plan_round_trip(*a, *input, reg, built);
        },
        _ => {},
    }
}

// ---------------------------------------------------------------------------
// What is written where
// ---------------------------------------------------------------------------

/// A constant is written under its own name and read under it.
pub proof fn constants_keep_their_name(r: ScalarValueRepr, v: ScalarView)
    ensures
        scalar_encodes(r, v) ==> {
            &&& v is Null <==> r is Null
            &&& v is Boolean <==> r is Boolean
            &&& v is Float32 <==> r is Float32
            &&& v is Float64 <==> r is Float64
            &&& v is Decimal128 <==> r is Decimal128
            &&& v is Decimal256 <==> r is Decimal256
            &&& v is Int8 <==> r is Int8
            &&& v is Int16 <==> r is Int16
            &&& v is Int32 <==> r is Int32
            &&& v is Int64 <==> r is Int64
            &&& v is UInt8 <==> r is UInt8
            &&& v is UInt16 <==> r is UInt16
            &&& v is UInt32 <==> r is UInt32
            &&& v is UInt64 <==> r is UInt64
            &&& v is Utf8 <==> r is Utf8
            &&& v is Utf8View <==> r is Utf8View
            &&& v is LargeUtf8 <==> r is LargeUtf8
            &&& v is Binary <==> r is Binary
            &&& v is BinaryView <==> r is BinaryView
            &&& v is FixedSizeBinary <==> r is FixedSizeBinary
            &&& v is LargeBinary <==> r is LargeBinary
            &&& v is Date32 <==> r is Date32
            &&& v is Date64 <==> r is Date64
            &&& v is Time32Second <==> r is Time32Second
            &&& v is Time32Millisecond <==> r is Time32Millisecond
            &&& v is Time64Microsecond <==> r is Time64Microsecond
            &&& v is Time64Nanosecond <==> r is Time64Nanosecond
            &&& v is TimestampSecond <==> r is TimestampSecond
            &&& v is TimestampMillisecond <==> r is TimestampMillisecond
            &&& v is TimestampMicrosecond <==> r is TimestampMicrosecond
            &&& v is TimestampNanosecond <==> r is TimestampNanosecond
            &&& v is IntervalYearMonth <==> r is IntervalYearMonth
            &&& v is IntervalDayTime <==> r is IntervalDayTime
            &&& v is IntervalMonthDayNano <==> r is IntervalMonthDayNano
            &&& v is DurationSecond <==> r is DurationSecond
            &&& v is DurationMillisecond <==> r is DurationMillisecond
            &&& v is DurationMicrosecond <==> r is DurationMicrosecond
            &&& v is DurationNanosecond <==> r is DurationNanosecond
        },
        scalar_decoded(r) matches Some(w) ==> {
            &&& w is Null <==> r is Null
            &&& w is Boolean <==> r is Boolean
            &&& w is Float32 <==> r is Float32
            &&& w is Float64 <==> r is Float64
            &&& w is Decimal128 <==> r is Decimal128
            &&& w is Decimal256 <==> r is Decimal256
            &&& w is Int8 <==> r is Int8
            &&& w is Int16 <==> r is Int16
            &&& w is Int32 <==> r is Int32
            &&& w is Int64 <==> r is Int64
            &&& w is UInt8 <==> r is UInt8
            &&& w is UInt16 <==> r is UInt16
            &&& w is UInt32 <==> r is UInt32
            &&& w is UInt64 <==> r is UInt64
            &&& w is Utf8 <==> r is Utf8
            &&& w is Utf8View <==> r is Utf8View
            &&& w is LargeUtf8 <==> r is LargeUtf8
            &&& w is Binary <==> r is Binary
            &&& w is BinaryView <==> r is BinaryView
            &&& w is FixedSizeBinary <==> r is FixedSizeBinary
            &&& w is LargeBinary <==> r is LargeBinary
            &&& w is Date32 <==> r is Date32
            &&& w is Date64 <==> r is Date64
            &&& w is Time32Second <==> r is Time32Second
            &&& w is Time32Millisecond <==> r is Time32Millisecond
            &&& w is Time64Microsecond <==> r is Time64Microsecond
            &&& w is Time64Nanosecond <==> r is Time64Nanosecond
            &&& w is TimestampSecond <==> r is TimestampSecond
            &&& w is TimestampMillisecond <==> r is TimestampMillisecond
            &&& w is TimestampMicrosecond <==> r is TimestampMicrosecond
            &&& w is TimestampNanosecond <==> r is TimestampNanosecond
            &&& w is IntervalYearMonth <==> r is IntervalYearMonth
            &&& w is IntervalDayTime <==> r is IntervalDayTime
            &&& w is IntervalMonthDayNano <==> r is IntervalMonthDayNano
            &&& w is DurationSecond <==> r is DurationSecond
            &&& w is DurationMillisecond <==> r is DurationMillisecond
            &&& w is DurationMicrosecond <==> r is DurationMicrosecond
            &&& w is DurationNanosecond <==> r is DurationNanosecond
        },
{
}

/// An expression is written under its own name.
pub proof fn expressions_are_written_under_their_name(r: ExprRepr, v: ExprView)
    requires
        expr_encodes(r, v),
    ensures
        v is Column <==> r is Column,
        v is Literal <==> r is Literal,
        v is BinaryExpr <==> r is BinaryExpr,
        v is Cast <==> r is Cast,
        v is Alias <==> r is Alias,
        v is AggregateFunction <==> r is AggregateFunction,
        v is Between <==> r is Between,
        v is InList <==> r is InList,
        v is ScalarFunction <==> r is ScalarFunction,
        v is InSubquery <==> r is InSubquery,
        v is Case <==> r is Case,
{
}

/// The operands of an expression are written in their own places, none for
/// another: the left one as the left one, the lower bound as the lower bound,
/// and what a case compares, takes and falls back to each as such.
pub proof fn operands_are_written_in_their_places(r: ExprRepr, v: ExprView)
    requires
        expr_encodes(r, v),
    ensures
        v matches ExprView::BinaryExpr { left, op, right } ==> {
            &&& r matches ExprRepr::BinaryExpr { left: a, op: o, right: b }
            &&& expr_encodes(*a, *left)
            &&& expr_encodes(*b, *right)
            &&& operator_of(o) == op
        },
        v matches ExprView::Between { expr, negated, low, high } ==> {
            &&& r matches ExprRepr::Between { expr: a, negated: n, low: b, high: c }
            &&& expr_encodes(*a, *expr)
            &&& expr_encodes(*b, *low)
            &&& expr_encodes(*c, *high)
            &&& n == negated
        },
        v matches ExprView::InList { expr, list, negated } ==> {
            &&& r matches ExprRepr::InList { expr: a, list: l, negated: n }
            &&& expr_encodes(*a, *expr)
            &&& l@.len() == list.len()
            &&& n == negated
        },
        v matches ExprView::InSubquery { expr, negated, .. } ==> {
            &&& r matches ExprRepr::InSubquery { expr: a, negated: n, .. }
            &&& expr_encodes(*a, *expr)
            &&& n == negated
        },
        v matches ExprView::AggregateFunction { func, args, distinct, filter, order_by, .. } ==> {
            &&& r matches ExprRepr::AggregateFunction {
                func: f,
                args: l,
                distinct: d,
                filter: p,
                order_by: o,
            }
            &&& f@ == func
            &&& l@.len() == args.len()
            &&& d == distinct
            &&& p is Some == filter is Some
            &&& o is Some == order_by is Some
        },
        v matches ExprView::Case { expr, when_then, else_expr } ==> {
            &&& r matches ExprRepr::Case { expr: a, when_then: l, else_expr: b }
            &&& (a matches Some(x) ==> expr matches Some(y) && expr_encodes(*x, *y))
            &&& (b matches Some(x) ==> else_expr matches Some(y) && expr_encodes(*x, *y))
            &&& a is Some == expr is Some
            &&& b is Some == else_expr is Some
            &&& l@.len() == when_then.len()
        },
        v matches ExprView::Alias { expr, relation, name } ==> {
            &&& r matches ExprRepr::Alias { expr: a, relation: q, name: n }
            &&& expr_encodes(*a, *expr)
            &&& n@ == name
            &&& q is Some == relation is Some
        },
        v matches ExprView::Column(c) ==> {
            &&& r matches ExprRepr::Column(w)
            &&& w.name@ == c.name
            &&& (c.relation matches Some(p) ==> w.relation matches Some(q) && q@ == dotted(p))
        },
        v matches ExprView::Cast { data_type, .. } ==> {
            &&& r matches ExprRepr::Cast { data_type: t, .. }
            &&& type_encodes(t, data_type)
        },
{
    reveal_with_fuel(expr_encodes, 2);
    reveal_with_fuel(exprs_encode, 2);
    reveal_with_fuel(pairs_encode, 2);
}

/// Lists are written in order, and so are pairs: the first of each as the
/// first.
pub proof fn lists_are_written_in_order(
    rs: Seq<ExprRepr>,
    vs: Seq<ExprView>,
    rp: Seq<(ExprRepr, ExprRepr)>,
    vp: Seq<(ExprView, ExprView)>,
    rk: Seq<SortRepr>,
    vk: Seq<SortView>,
    i: int,
)
    ensures
        exprs_encode(rs, vs) && 0 <= i < vs.len() ==> rs.len() == vs.len() && expr_encodes(
            rs[i],
            vs[i],
        ),
        pairs_encode(rp, vp) && 0 <= i < vp.len() ==> rp.len() == vp.len() && expr_encodes(
            rp[i].0,
            vp[i].0,
        ) && expr_encodes(rp[i].1, vp[i].1),
        sorts_encode(rk, vk) && 0 <= i < vk.len() ==> rk.len() == vk.len() && expr_encodes(
            rk[i].expr,
            vk[i].expr,
        ) && rk[i].asc == vk[i].asc && rk[i].nulls_first == vk[i].nulls_first,
{
    reveal_with_fuel(exprs_encode, 2);
    reveal_with_fuel(pairs_encode, 2);
    reveal_with_fuel(sorts_encode, 2);
    reveal_with_fuel(sort_encodes, 2);
    if sorts_encode(rk, vk) && 0 <= i < vk.len() {
        assert(sort_encodes(rk[i], vk[i]));
    }
}

/// A plan is written under its own name, and the two result checks under
/// different ones.
pub proof fn plans_are_written_under_their_name(r: LogicalPlanRepr, v: PlanView)
    requires
        plan_encodes(r, v),
    ensures
        v is TableScan <==> r is TableScan,
        v is Projection <==> r is Projection,
        v is Filter <==> r is Filter,
        v is Aggregate <==> r is Aggregate,
        v is Sort <==> r is Sort,
        v is Join <==> r is Join,
        v is SubqueryAlias <==> r is SubqueryAlias,
        v is Limit <==> r is Limit,
        v is Rematerialize <==> r is ExtensionRematerialize,
        (v matches PlanView::ResultCheck { mode, .. } && mode == ResultCheckMode::Bag)
            <==> r is ExtensionResultCheck,
        (v matches PlanView::ResultCheck { mode, .. } && mode == ResultCheckMode::Ordered)
            <==> r is ExtensionOrderedResultCheck,
{
}

/// The parts of a plan are written in their own places: the left input as the
/// left one, groups as groups, the skip as the skip.
pub proof fn inputs_are_written_in_their_places(r: LogicalPlanRepr, v: PlanView)
    requires
        plan_encodes(r, v),
    ensures
        v matches PlanView::Join {
            left,
            right,
            on,
            filter,
            join_type,
            join_constraint,
            null_equals_null,
        } ==> {
            &&& r matches LogicalPlanRepr::Join {
                left: a,
                right: b,
                on: l,
                filter: f,
                join_type: t,
                join_constraint: c,
                null_equals_null: n,
            }
            &&& plan_encodes(*a, *left)
            &&& plan_encodes(*b, *right)
            &&& pairs_encode(l@, on)
            &&& f is Some == filter is Some
            &&& join_type_of(t) == join_type
            &&& join_constraint_of(c) == join_constraint
            &&& n == null_equals_null
        },
        v matches PlanView::Aggregate { group_expr, aggr_expr, input } ==> {
            &&& r matches LogicalPlanRepr::Aggregate { group_expr: g, aggr_expr: f, input: a }
            &&& exprs_encode(g@, group_expr)
            &&& exprs_encode(f@, aggr_expr)
            &&& plan_encodes(*a, *input)
        },
        v matches PlanView::Limit { input, skip, fetch } ==> {
            &&& r matches LogicalPlanRepr::Limit { input: a, skip: s, fetch: f }
            &&& plan_encodes(*a, *input)
            &&& s is Some == skip is Some
            &&& f is Some == fetch is Some
            &&& (s matches Some(x) ==> skip matches Some(y) && expr_encodes(x, *y))
            &&& (f matches Some(x) ==> fetch matches Some(y) && expr_encodes(x, *y))
        },
        v matches PlanView::Sort { expr, input, fetch } ==> {
            &&& r matches LogicalPlanRepr::Sort { expr: k, input: a, fetch: f }
            &&& sorts_encode(k@, expr)
            &&& plan_encodes(*a, *input)
            &&& f == fetch
        },
        v matches PlanView::Filter { predicate, input, having } ==> {
            &&& r matches LogicalPlanRepr::Filter { predicate: p, input: a, having: h }
            &&& expr_encodes(p, predicate)
            &&& plan_encodes(*a, *input)
            &&& h == having
        },
        v matches PlanView::Projection { expr, input } ==> {
            &&& r matches LogicalPlanRepr::Projection { expr: e, input: a }
            &&& exprs_encode(e@, expr)
            &&& plan_encodes(*a, *input)
        },
        v matches PlanView::SubqueryAlias { input, alias } ==> {
            &&& r matches LogicalPlanRepr::SubqueryAlias { input: a, alias: n }
            &&& plan_encodes(*a, *input)
            &&& n@ == dotted(alias)
        },
        v matches PlanView::TableScan { table_name, projection, filters, fetch, .. } ==> {
            &&& r matches LogicalPlanRepr::TableScan {
                table_name: n,
                projection: p,
                filters: l,
                fetch: f,
                ..
            }
            &&& n@ == dotted(table_name)
            &&& indices_opt(p) == projection
            &&& exprs_encode(l@, filters)
            &&& f == fetch
        },
{
    reveal_with_fuel(plan_encodes, 2);
}

/// An expression is read as what it was written as, and a function from the
/// registry of its own kind: an aggregate from the aggregates, a scalar
/// function from the scalar functions. One that is not registered is refused.
pub proof fn expressions_are_read_as_they_were_written(
    r: ExprRepr,
    reg: FunctionRegistry,
    built: EngineFn,
)
    ensures
        expr_decoded(r, reg, built) matches Ok(v) ==> {
            &&& v is Column <==> r is Column
            &&& v is Literal <==> r is Literal
            &&& v is BinaryExpr <==> r is BinaryExpr
            &&& v is Cast <==> r is Cast
            &&& v is Alias <==> r is Alias
            &&& v is AggregateFunction <==> r is AggregateFunction
            &&& v is Between <==> r is Between
            &&& v is InList <==> r is InList
            &&& v is ScalarFunction <==> r is ScalarFunction
            &&& v is InSubquery <==> r is InSubquery
            &&& v is Case <==> r is Case
        },
        r matches ExprRepr::AggregateFunction { func, .. } ==> {
            &&& looked_up(reg.aggregates@, func@) is None ==> expr_decoded(r, reg, built) == Err::<
                ExprView,
                CodecError,
            >(CodecError::UnknownAggregate)
            &&& expr_decoded(r, reg, built) matches Ok(ExprView::AggregateFunction { func: f, .. })
                ==> looked_up(reg.aggregates@, func@) == Some(f)
        },
        r matches ExprRepr::ScalarFunction { func, .. } ==> {
            &&& looked_up(reg.scalars@, func@) is None ==> expr_decoded(r, reg, built) == Err::<
                ExprView,
                CodecError,
            >(CodecError::UnknownScalar)
            &&& expr_decoded(r, reg, built) matches Ok(ExprView::ScalarFunction { func: f, .. })
                ==> looked_up(reg.scalars@, func@) == Some(f)
        },
        r matches ExprRepr::BinaryExpr { left, op, right } ==> (expr_decoded(
            r,
            reg,
            built,
        ) matches Ok(ExprView::BinaryExpr { left: a, op: o, right: b }) ==> expr_decoded(
            *left,
            reg,
            built,
        ) == Ok::<ExprView, CodecError>(*a) && expr_decoded(*right, reg, built) == Ok::<
            ExprView,
            CodecError,
        >(*b) && operator_repr(o) == op),
        r matches ExprRepr::Between { low, high, negated, .. } ==> (expr_decoded(
            r,
            reg,
            built,
        ) matches Ok(ExprView::Between { low: a, high: b, negated: n, .. }) ==> expr_decoded(
            *low,
            reg,
            built,
        ) == Ok::<ExprView, CodecError>(*a) && expr_decoded(*high, reg, built) == Ok::<
            ExprView,
            CodecError,
        >(*b) && n == negated),
{
    reveal_with_fuel(expr_decoded, 2);
    match r {
        ExprRepr::BinaryExpr { op, .. } => {
            operator_round_trip(operator_of(op), op);
        },
        _ => {},
    }
}

} // verus!
