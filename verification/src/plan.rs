//! Logical plans and scalar expressions as plain values.
use crate::metadata::Metadata;
use crate::schema::{fields_view, text_opt, DataType, Field, FieldView, TypeView};
use crate::seqs::joined;
use crate::text::{join_text3, same_text};
use vstd::prelude::*;
use vstd::string::*;

verus! {

/// A path to a table, possibly qualified by a schema and a catalog.
#[derive(Debug, Clone)]
pub enum TableReference {
    Bare { table: String },
    Partial { schema: String, table: String },
    Full { catalog: String, schema: String, table: String },
}

/// The parts of a path one after the other, separated by dots.
pub open spec fn dotted(parts: Seq<Seq<char>>) -> Seq<char>
    decreases parts.len(),
{
    if parts.len() == 0 {
        Seq::empty()
    } else if parts.len() == 1 {
        parts[0]
    } else {
        dotted(parts.drop_last()) + "."@ + parts.last()
    }
}

/// Dotted paths are texts joined with dots.
pub proof fn lemma_dotted(parts: Seq<Seq<char>>)
    ensures
        dotted(parts) == joined(parts, "."@),
    decreases parts.len(),
{
    if parts.len() > 1 {
        lemma_dotted(parts.drop_last());
    }
}

impl TableReference {
    /// The parts of the path, outermost first.
    pub open spec fn view(&self) -> Seq<Seq<char>> {
        match *self {
            TableReference::Bare { table } => seq![table@],
            TableReference::Partial { schema, table } => seq![schema@, table@],
            TableReference::Full { catalog, schema, table } => seq![catalog@, schema@, table@],
        }
    }

    /// The reference as dotted text, without quoting.
    pub fn to_text(&self) -> (r: String)
        ensures
            r@ == dotted(self@),
    {
        proof {
            reveal_with_fuel(dotted, 3);
        }
        match self {
            TableReference::Bare { table } => table.clone(),
            TableReference::Partial { schema, table } => {
                assert(self@.drop_last() =~= seq![schema@]);
                join_text3(schema.as_str(), ".", table.as_str())
            },
            TableReference::Full { catalog, schema, table } => {
                assert(self@.drop_last() =~= seq![catalog@, schema@]);
                assert(self@.drop_last().drop_last() =~= seq![catalog@]);
                let head: String = join_text3(catalog.as_str(), ".", schema.as_str());
                join_text3(head.as_str(), ".", table.as_str())
            },
        }
    }

    /// An equal reference.
    pub fn copy(&self) -> (r: TableReference)
        ensures
            r == *self,
    {
        match self {
            TableReference::Bare { table } => TableReference::Bare { table: table.clone() },
            TableReference::Partial { schema, table } => TableReference::Partial {
                schema: schema.clone(),
                table: table.clone(),
            },
            TableReference::Full { catalog, schema, table } => TableReference::Full {
                catalog: catalog.clone(),
                schema: schema.clone(),
                table: table.clone(),
            },
        }
    }

    /// Whether the two references have the same parts.
    pub fn same(&self, other: &TableReference) -> (r: bool)
        ensures
            r == (self@ == other@),
    {
        match (self, other) {
            (TableReference::Bare { table: a }, TableReference::Bare { table: b }) => {
                let r = same_text(a.as_str(), b.as_str());
                proof {
                    if r {
                        assert(self@ =~= other@);
                    } else {
                        assert(self@[0] != other@[0]);
                    }
                }
                r
            },
            (
                TableReference::Partial { schema: s, table: a },
                TableReference::Partial { schema: t, table: b },
            ) => {
                let r = same_text(s.as_str(), t.as_str()) && same_text(a.as_str(), b.as_str());
                proof {
                    if r {
                        assert(self@ =~= other@);
                    } else {
                        assert(self@[0] != other@[0] || self@[1] != other@[1]);
                    }
                }
                r
            },
            (
                TableReference::Full { catalog: c, schema: s, table: a },
                TableReference::Full { catalog: d, schema: t, table: b },
            ) => {
                let r = same_text(c.as_str(), d.as_str()) && same_text(s.as_str(), t.as_str())
                    && same_text(a.as_str(), b.as_str());
                proof {
                    if r {
                        assert(self@ =~= other@);
                    } else {
                        assert(self@[0] != other@[0] || self@[1] != other@[1] || self@[2]
                            != other@[2]);
                    }
                }
                r
            },
            _ => {
                assert(self@.len() != other@.len());
                false
            },
        }
    }
}

/// The parts of an optional reference.
pub open spec fn ref_opt(r: Option<TableReference>) -> Option<Seq<Seq<char>>> {
    match r {
        Some(t) => Some(t@),
        None => None,
    }
}

/// A copy of an optional reference.
pub fn copy_ref_opt(r: &Option<TableReference>) -> (c: Option<TableReference>)
    ensures
        c == *r,
{
    match r {
        Some(t) => Some(t.copy()),
        None => None,
    }
}

/// Whether two optional references have the same parts.
pub fn same_ref_opt(a: &Option<TableReference>, b: &Option<TableReference>) -> (r: bool)
    ensures
        r == (ref_opt(*a) == ref_opt(*b)),
{
    match (a, b) {
        (Some(x), Some(y)) => x.same(y),
        (None, None) => true,
        _ => false,
    }
}

/// A named reference to a field, possibly qualified.
#[derive(Debug, Clone)]
pub struct Column {
    pub relation: Option<TableReference>,
    pub name: String,
}

/// Mathematical counterpart of [`Column`].
pub struct ColumnView {
    pub relation: Option<Seq<Seq<char>>>,
    pub name: Seq<char>,
}

/// The text of a column reference: its qualifier, a dot and its name.
pub open spec fn flat_name(c: ColumnView) -> Seq<char> {
    match c.relation {
        Some(r) => dotted(r) + "."@ + c.name,
        None => c.name,
    }
}

impl Column {
    /// The column as a mathematical value.
    pub open spec fn view(&self) -> ColumnView {
        ColumnView { relation: ref_opt(self.relation), name: self.name@ }
    }

    /// A column from an optional qualifier and a name.
    pub fn new(relation: Option<TableReference>, name: &str) -> (r: Column)
        ensures
            r@ == (ColumnView { relation: ref_opt(relation), name: name@ }),
    {
        Column { relation, name: name.to_owned() }
    }

    /// A column without a qualifier.
    pub fn new_unqualified(name: &str) -> (r: Column)
        ensures
            r@ == (ColumnView { relation: None, name: name@ }),
    {
        Column { relation: None, name: name.to_owned() }
    }

    /// An equal column.
    pub fn copy(&self) -> (r: Column)
        ensures
            r == *self,
    {
        Column { relation: copy_ref_opt(&self.relation), name: self.name.clone() }
    }

    /// The column as flat text.
    pub fn flat_name(&self) -> (r: String)
        ensures
            r@ == flat_name(self@),
    {
        match &self.relation {
            Some(t) => {
                let head: String = t.to_text();
                join_text3(head.as_str(), ".", self.name.as_str())
            },
            None => self.name.clone(),
        }
    }

    /// Whether the two columns agree in qualifier and name.
    pub fn same(&self, other: &Column) -> (r: bool)
        ensures
            r == (self@ == other@),
    {
        same_ref_opt(&self.relation, &other.relation) && same_text(self.name.as_str(), other.name.as_str())
    }
}

/// Binary operators.
#[derive(Debug, Clone, Copy, PartialEq, Eq, Structural)]
pub enum Operator {
    Eq,
    NotEq,
    Lt,
    LtEq,
    Gt,
    GtEq,
    Plus,
    Minus,
    Multiply,
    Divide,
    Modulo,
    And,
    Or,
    IsDistinctFrom,
    IsNotDistinctFrom,
    RegexMatch,
    RegexIMatch,
    RegexNotMatch,
    RegexNotIMatch,
    LikeMatch,
    ILikeMatch,
    NotLikeMatch,
    NotILikeMatch,
    BitwiseAnd,
    BitwiseOr,
    BitwiseXor,
    BitwiseShiftRight,
    BitwiseShiftLeft,
    StringConcat,
    AtArrow,
    ArrowAt,
}

/// How a join treats rows without a partner.
#[derive(Debug, Clone, Copy, PartialEq, Eq, Structural)]
pub enum JoinType {
    Inner,
    Left,
    Right,
    Full,
    LeftSemi,
    RightSemi,
    LeftAnti,
    RightAnti,
    LeftMark,
}

/// Which SQL clause gave the join keys.
#[derive(Debug, Clone, Copy, PartialEq, Eq, Structural)]
pub enum JoinConstraint {
    On,
    Using,
}

/// How an aggregate treats nulls.
#[derive(Debug, Clone, Copy, PartialEq, Eq, Structural)]
pub enum NullTreatment {
    IgnoreNulls,
    RespectNulls,
}

/// Whether a result is compared as a bag or in order.
#[derive(Debug, Clone, Copy, PartialEq, Eq, Structural)]
pub enum ResultCheckMode {
    Bag,
    Ordered,
}

/// Scalar kinds that hold nested arrays or are not carried further.
#[derive(Debug, Clone, Copy, PartialEq, Eq, Structural)]
pub enum NestedScalar {
    Float16,
    FixedSizeList,
    List,
    LargeList,
    Struct,
    MapOf,
    Union,
    Dictionary,
}

/// A typed constant. Floating-point values are held by their bit patterns,
/// 256-bit decimals by their low and high halves.
#[derive(Debug, Clone)]
pub enum ScalarValue {
    Null,
    Boolean(Option<bool>),
    Float32(Option<u32>),
    Float64(Option<u64>),
    Decimal128(Option<i128>, u8, i8),
    Decimal256(Option<(u128, i128)>, u8, i8),
    Int8(Option<i8>),
    Int16(Option<i16>),
    Int32(Option<i32>),
    Int64(Option<i64>),
    UInt8(Option<u8>),
    UInt16(Option<u16>),
    UInt32(Option<u32>),
    UInt64(Option<u64>),
    Utf8(Option<String>),
    Utf8View(Option<String>),
    LargeUtf8(Option<String>),
    Binary(Option<Vec<u8>>),
    BinaryView(Option<Vec<u8>>),
    FixedSizeBinary(i32, Option<Vec<u8>>),
    LargeBinary(Option<Vec<u8>>),
    Date32(Option<i32>),
    Date64(Option<i64>),
    Time32Second(Option<i32>),
    Time32Millisecond(Option<i32>),
    Time64Microsecond(Option<i64>),
    Time64Nanosecond(Option<i64>),
    TimestampSecond(Option<i64>, Option<String>),
    TimestampMillisecond(Option<i64>, Option<String>),
    TimestampMicrosecond(Option<i64>, Option<String>),
    TimestampNanosecond(Option<i64>, Option<String>),
    IntervalYearMonth(Option<i32>),
    IntervalDayTime(Option<(i32, i32)>),
    IntervalMonthDayNano(Option<(i32, i32, i64)>),
    DurationSecond(Option<i64>),
    DurationMillisecond(Option<i64>),
    DurationMicrosecond(Option<i64>),
    DurationNanosecond(Option<i64>),
    Nested(NestedScalar),
}

/// Mathematical counterpart of [`ScalarValue`].
#[verifier::ext_equal]
pub enum ScalarView {
    Null,
    Boolean(Option<bool>),
    Float32(Option<u32>),
    Float64(Option<u64>),
    Decimal128(Option<i128>, u8, i8),
    Decimal256(Option<(u128, i128)>, u8, i8),
    Int8(Option<i8>),
    Int16(Option<i16>),
    Int32(Option<i32>),
    Int64(Option<i64>),
    UInt8(Option<u8>),
    UInt16(Option<u16>),
    UInt32(Option<u32>),
    UInt64(Option<u64>),
    Utf8(Option<Seq<char>>),
    Utf8View(Option<Seq<char>>),
    LargeUtf8(Option<Seq<char>>),
    Binary(Option<Seq<u8>>),
    BinaryView(Option<Seq<u8>>),
    FixedSizeBinary(i32, Option<Seq<u8>>),
    LargeBinary(Option<Seq<u8>>),
    Date32(Option<i32>),
    Date64(Option<i64>),
    Time32Second(Option<i32>),
    Time32Millisecond(Option<i32>),
    Time64Microsecond(Option<i64>),
    Time64Nanosecond(Option<i64>),
    TimestampSecond(Option<i64>, Option<Seq<char>>),
    TimestampMillisecond(Option<i64>, Option<Seq<char>>),
    TimestampMicrosecond(Option<i64>, Option<Seq<char>>),
    TimestampNanosecond(Option<i64>, Option<Seq<char>>),
    IntervalYearMonth(Option<i32>),
    IntervalDayTime(Option<(i32, i32)>),
    IntervalMonthDayNano(Option<(i32, i32, i64)>),
    DurationSecond(Option<i64>),
    DurationMillisecond(Option<i64>),
    DurationMicrosecond(Option<i64>),
    DurationNanosecond(Option<i64>),
    Nested(NestedScalar),
}

/// The bytes of an optional byte string.
pub open spec fn bytes_opt(b: Option<Vec<u8>>) -> Option<Seq<u8>> {
    match b {
        Some(v) => Some(v@),
        None => None,
    }
}

impl ScalarValue {
    /// The constant as a mathematical value.
    pub open spec fn view(&self) -> ScalarView {
        match *self {
            ScalarValue::Null => ScalarView::Null,
            ScalarValue::Boolean(v) => ScalarView::Boolean(v),
            ScalarValue::Float32(v) => ScalarView::Float32(v),
            ScalarValue::Float64(v) => ScalarView::Float64(v),
            ScalarValue::Decimal128(v, p, s) => ScalarView::Decimal128(v, p, s),
            ScalarValue::Decimal256(v, p, s) => ScalarView::Decimal256(v, p, s),
            ScalarValue::Int8(v) => ScalarView::Int8(v),
            ScalarValue::Int16(v) => ScalarView::Int16(v),
            ScalarValue::Int32(v) => ScalarView::Int32(v),
            ScalarValue::Int64(v) => ScalarView::Int64(v),
            ScalarValue::UInt8(v) => ScalarView::UInt8(v),
            ScalarValue::UInt16(v) => ScalarView::UInt16(v),
            ScalarValue::UInt32(v) => ScalarView::UInt32(v),
            ScalarValue::UInt64(v) => ScalarView::UInt64(v),
            ScalarValue::Utf8(v) => ScalarView::Utf8(text_opt(v)),
            ScalarValue::Utf8View(v) => ScalarView::Utf8View(text_opt(v)),
            ScalarValue::LargeUtf8(v) => ScalarView::LargeUtf8(text_opt(v)),
            ScalarValue::Binary(v) => ScalarView::Binary(bytes_opt(v)),
            ScalarValue::BinaryView(v) => ScalarView::BinaryView(bytes_opt(v)),
            ScalarValue::FixedSizeBinary(n, v) => ScalarView::FixedSizeBinary(n, bytes_opt(v)),
            ScalarValue::LargeBinary(v) => ScalarView::LargeBinary(bytes_opt(v)),
            ScalarValue::Date32(v) => ScalarView::Date32(v),
            ScalarValue::Date64(v) => ScalarView::Date64(v),
            ScalarValue::Time32Second(v) => ScalarView::Time32Second(v),
            ScalarValue::Time32Millisecond(v) => ScalarView::Time32Millisecond(v),
            ScalarValue::Time64Microsecond(v) => ScalarView::Time64Microsecond(v),
            ScalarValue::Time64Nanosecond(v) => ScalarView::Time64Nanosecond(v),
            ScalarValue::TimestampSecond(v, tz) => ScalarView::TimestampSecond(v, text_opt(tz)),
            ScalarValue::TimestampMillisecond(v, tz) => ScalarView::TimestampMillisecond(
                v,
                text_opt(tz),
            ),
            ScalarValue::TimestampMicrosecond(v, tz) => ScalarView::TimestampMicrosecond(
                v,
                text_opt(tz),
            ),
            ScalarValue::TimestampNanosecond(v, tz) => ScalarView::TimestampNanosecond(
                v,
                text_opt(tz),
            ),
            ScalarValue::IntervalYearMonth(v) => ScalarView::IntervalYearMonth(v),
            ScalarValue::IntervalDayTime(v) => ScalarView::IntervalDayTime(v),
            ScalarValue::IntervalMonthDayNano(v) => ScalarView::IntervalMonthDayNano(v),
            ScalarValue::DurationSecond(v) => ScalarView::DurationSecond(v),
            ScalarValue::DurationMillisecond(v) => ScalarView::DurationMillisecond(v),
            ScalarValue::DurationMicrosecond(v) => ScalarView::DurationMicrosecond(v),
            ScalarValue::DurationNanosecond(v) => ScalarView::DurationNanosecond(v),
            ScalarValue::Nested(k) => ScalarView::Nested(k),
        }
    }
}

/// Expression forms that no proof node exists for.
#[derive(Debug, Clone, Copy, PartialEq, Eq, Structural)]
pub enum OtherExpr {
    ScalarVariable,
    SimilarTo,
    Not,
    IsNotNull,
    IsNull,
    IsTrue,
    IsFalse,
    IsUnknown,
    IsNotTrue,
    IsNotFalse,
    IsNotUnknown,
    Negative,
    TryCast,
    WindowFunction,
    Exists,
    ScalarSubquery,
    Wildcard,
    GroupingSet,
    Placeholder,
    OuterReferenceColumn,
    Unnest,
}

/// Plan forms that no proof node exists for.
#[derive(Debug, Clone, Copy, PartialEq, Eq, Structural)]
pub enum OtherPlan {
    Window,
    Repartition,
    Union,
    EmptyRelation,
    Subquery,
    Statement,
    Values,
    Explain,
    Analyze,
    Extension,
    Distinct,
    Dml,
    Ddl,
    Copy,
    DescribeTable,
    Unnest,
    RecursiveQuery,
}

/// A scalar expression.
#[derive(Debug)]
pub enum Expr {
    Alias { expr: Box<Expr>, relation: Option<TableReference>, name: String },
    Column(Column),
    Literal(ScalarValue),
    BinaryExpr { left: Box<Expr>, op: Operator, right: Box<Expr> },
    Like {
        negated: bool,
        expr: Box<Expr>,
        pattern: Box<Expr>,
        escape_char: Option<char>,
        case_insensitive: bool,
    },
    Between { expr: Box<Expr>, negated: bool, low: Box<Expr>, high: Box<Expr> },
    Case { expr: Option<Box<Expr>>, when_then: Vec<(Expr, Expr)>, else_expr: Option<Box<Expr>> },
    Cast { expr: Box<Expr>, data_type: DataType },
    ScalarFunction { func: String, args: Vec<Expr> },
    AggregateFunction {
        func: String,
        args: Vec<Expr>,
        distinct: bool,
        filter: Option<Box<Expr>>,
        order_by: Option<Vec<SortExpr>>,
        null_treatment: Option<NullTreatment>,
    },
    InList { expr: Box<Expr>, list: Vec<Expr>, negated: bool },
    InSubquery { expr: Box<Expr>, subquery: Subquery, negated: bool },
    Other { kind: OtherExpr, operands: Vec<Expr> },
}

/// One key of a sort.
#[derive(Debug)]
pub struct SortExpr {
    pub expr: Expr,
    pub asc: bool,
    pub nulls_first: bool,
}

/// A subquery inside an expression.
#[derive(Debug)]
pub struct Subquery {
    pub subquery: Box<LogicalPlan>,
    pub outer_ref_columns: Vec<Expr>,
}

/// A schema: fields in order and annotations.
#[derive(Debug)]
pub struct Schema {
    pub fields: Vec<Field>,
    pub metadata: Metadata,
}

/// A relational operator over its inputs.
#[derive(Debug)]
pub enum LogicalPlan {
    TableScan {
        table_name: TableReference,
        schema: Schema,
        projection: Option<Vec<usize>>,
        filters: Vec<Expr>,
        fetch: Option<usize>,
    },
    Projection { expr: Vec<Expr>, input: Box<LogicalPlan> },
    Filter { predicate: Expr, input: Box<LogicalPlan>, having: bool },
    Aggregate { group_expr: Vec<Expr>, aggr_expr: Vec<Expr>, input: Box<LogicalPlan> },
    Sort { expr: Vec<SortExpr>, input: Box<LogicalPlan>, fetch: Option<usize> },
    Join {
        left: Box<LogicalPlan>,
        right: Box<LogicalPlan>,
        on: Vec<(Expr, Expr)>,
        filter: Option<Expr>,
        join_type: JoinType,
        join_constraint: JoinConstraint,
        null_equals_null: bool,
    },
    SubqueryAlias { input: Box<LogicalPlan>, alias: TableReference },
    Limit { input: Box<LogicalPlan>, skip: Option<Box<Expr>>, fetch: Option<Box<Expr>> },
    Rematerialize { input: Box<LogicalPlan> },
    ResultCheck { input: Box<LogicalPlan>, mode: ResultCheckMode },
    Other { kind: OtherPlan, inputs: Vec<LogicalPlan> },
}

/// Mathematical counterpart of [`Expr`].
#[verifier::ext_equal]
pub enum ExprView {
    Alias { expr: Box<ExprView>, relation: Option<Seq<Seq<char>>>, name: Seq<char> },
    Column(ColumnView),
    Literal(ScalarView),
    BinaryExpr { left: Box<ExprView>, op: Operator, right: Box<ExprView> },
    Like {
        negated: bool,
        expr: Box<ExprView>,
        pattern: Box<ExprView>,
        escape_char: Option<char>,
        case_insensitive: bool,
    },
    Between { expr: Box<ExprView>, negated: bool, low: Box<ExprView>, high: Box<ExprView> },
    Case {
        expr: Option<Box<ExprView>>,
        when_then: Seq<(ExprView, ExprView)>,
        else_expr: Option<Box<ExprView>>,
    },
    Cast { expr: Box<ExprView>, data_type: TypeView },
    ScalarFunction { func: Seq<char>, args: Seq<ExprView> },
    AggregateFunction {
        func: Seq<char>,
        args: Seq<ExprView>,
        distinct: bool,
        filter: Option<Box<ExprView>>,
        order_by: Option<Seq<SortView>>,
        null_treatment: Option<NullTreatment>,
    },
    InList { expr: Box<ExprView>, list: Seq<ExprView>, negated: bool },
    InSubquery { expr: Box<ExprView>, subquery: SubqueryView, negated: bool },
    Other { kind: OtherExpr, operands: Seq<ExprView> },
}

/// Mathematical counterpart of [`SortExpr`].
#[verifier::ext_equal]
pub struct SortView {
    pub expr: ExprView,
    pub asc: bool,
    pub nulls_first: bool,
}

/// Mathematical counterpart of [`Subquery`].
#[verifier::ext_equal]
pub struct SubqueryView {
    pub subquery: Box<PlanView>,
    pub outer_ref_columns: Seq<ExprView>,
}

/// Mathematical counterpart of [`Schema`].
#[verifier::ext_equal]
pub struct SchemaView {
    pub fields: Seq<FieldView>,
    pub metadata: Map<Seq<char>, Seq<char>>,
}

/// Mathematical counterpart of [`LogicalPlan`].
#[verifier::ext_equal]
pub enum PlanView {
    TableScan {
        table_name: Seq<Seq<char>>,
        schema: SchemaView,
        projection: Option<Seq<usize>>,
        filters: Seq<ExprView>,
        fetch: Option<usize>,
    },
    Projection { expr: Seq<ExprView>, input: Box<PlanView> },
    Filter { predicate: ExprView, input: Box<PlanView>, having: bool },
    Aggregate { group_expr: Seq<ExprView>, aggr_expr: Seq<ExprView>, input: Box<PlanView> },
    Sort { expr: Seq<SortView>, input: Box<PlanView>, fetch: Option<usize> },
    Join {
        left: Box<PlanView>,
        right: Box<PlanView>,
        on: Seq<(ExprView, ExprView)>,
        filter: Option<ExprView>,
        join_type: JoinType,
        join_constraint: JoinConstraint,
        null_equals_null: bool,
    },
    SubqueryAlias { input: Box<PlanView>, alias: Seq<Seq<char>> },
    Limit { input: Box<PlanView>, skip: Option<Box<ExprView>>, fetch: Option<Box<ExprView>> },
    Rematerialize { input: Box<PlanView> },
    ResultCheck { input: Box<PlanView>, mode: ResultCheckMode },
    Other { kind: OtherPlan, inputs: Seq<PlanView> },
}

/// The indices of an optional index list.
pub open spec fn indices_opt(v: Option<Vec<usize>>) -> Option<Seq<usize>> {
    match v {
        Some(x) => Some(x@),
        None => None,
    }
}

/// The views of a list of expressions.
pub open spec fn exprs_view(s: Seq<Expr>) -> Seq<ExprView>
    decreases s,
{
    Seq::new(
        s.len(),
        |i: int|
            if 0 <= i < s.len() {
                s[i].view()
            } else {
                arbitrary()
            },
    )
}

/// The views of a list of expression pairs.
pub open spec fn pairs_view(s: Seq<(Expr, Expr)>) -> Seq<(ExprView, ExprView)>
    decreases s,
{
    Seq::new(
        s.len(),
        |i: int|
            if 0 <= i < s.len() {
                (s[i].0.view(), s[i].1.view())
            } else {
                arbitrary()
            },
    )
}

/// The views of a list of sort keys.
pub open spec fn sorts_view(s: Seq<SortExpr>) -> Seq<SortView>
    decreases s,
{
    Seq::new(
        s.len(),
        |i: int|
            if 0 <= i < s.len() {
                s[i].view()
            } else {
                arbitrary()
            },
    )
}

/// The views of a list of plans.
pub open spec fn plans_view(s: Seq<LogicalPlan>) -> Seq<PlanView>
    decreases s,
{
    Seq::new(
        s.len(),
        |i: int|
            if 0 <= i < s.len() {
                s[i].view()
            } else {
                arbitrary()
            },
    )
}

impl SortExpr {
    /// The sort key as a mathematical value.
    pub open spec fn view(&self) -> SortView
        decreases self,
    {
        SortView { expr: self.expr.view(), asc: self.asc, nulls_first: self.nulls_first }
    }
}

impl Subquery {
    /// The subquery as a mathematical value.
    pub open spec fn view(&self) -> SubqueryView
        decreases self,
    {
        SubqueryView {
            subquery: Box::new(self.subquery.view()),
            outer_ref_columns: exprs_view(self.outer_ref_columns@),
        }
    }
}

impl Schema {
    /// The schema as a mathematical value.
    pub open spec fn view(&self) -> SchemaView {
        SchemaView { fields: fields_view(self.fields@), metadata: self.metadata@ }
    }
}

impl Expr {
    /// The expression as a mathematical value.
    pub open spec fn view(&self) -> ExprView
        decreases self,
    {
        match *self {
            Expr::Alias { expr, relation, name } => ExprView::Alias {
                expr: Box::new(expr.view()),
                relation: ref_opt(relation),
                name: name@,
            },
            Expr::Column(c) => ExprView::Column(c.view()),
            Expr::Literal(v) => ExprView::Literal(v.view()),
            Expr::BinaryExpr { left, op, right } => ExprView::BinaryExpr {
                left: Box::new(left.view()),
                op,
                right: Box::new(right.view()),
            },
            Expr::Like { negated, expr, pattern, escape_char, case_insensitive } => ExprView::Like {
                negated,
                expr: Box::new(expr.view()),
                pattern: Box::new(pattern.view()),
                escape_char,
                case_insensitive,
            },
            Expr::Between { expr, negated, low, high } => ExprView::Between {
                expr: Box::new(expr.view()),
                negated,
                low: Box::new(low.view()),
                high: Box::new(high.view()),
            },
            Expr::Case { expr, when_then, else_expr } => ExprView::Case {
                expr: match expr {
                    Some(e) => Some(Box::new(e.view())),
                    None => None,
                },
                when_then: pairs_view(when_then@),
                else_expr: match else_expr {
                    Some(e) => Some(Box::new(e.view())),
                    None => None,
                },
            },
            Expr::Cast { expr, data_type } => ExprView::Cast {
                expr: Box::new(expr.view()),
                data_type: data_type.view(),
            },
            Expr::ScalarFunction { func, args } => ExprView::ScalarFunction {
                func: func@,
                args: exprs_view(args@),
            },
            Expr::AggregateFunction { func, args, distinct, filter, order_by, null_treatment } =>
            ExprView::AggregateFunction {
                func: func@,
                args: exprs_view(args@),
                distinct,
                filter: match filter {
                    Some(e) => Some(Box::new(e.view())),
                    None => None,
                },
                order_by: match order_by {
                    Some(o) => Some(sorts_view(o@)),
                    None => None,
                },
                null_treatment,
            },
            Expr::InList { expr, list, negated } => ExprView::InList {
                expr: Box::new(expr.view()),
                list: exprs_view(list@),
                negated,
            },
            Expr::InSubquery { expr, subquery, negated } => ExprView::InSubquery {
                expr: Box::new(expr.view()),
                subquery: subquery.view(),
                negated,
            },
            Expr::Other { kind, operands } => ExprView::Other {
                kind,
                operands: exprs_view(operands@),
            },
        }
    }
}

impl LogicalPlan {
    /// The plan as a mathematical value.
    pub open spec fn view(&self) -> PlanView
        decreases self,
    {
        match *self {
            LogicalPlan::TableScan { table_name, schema, projection, filters, fetch } =>
            PlanView::TableScan {
                table_name: table_name@,
                schema: schema.view(),
                projection: indices_opt(projection),
                filters: exprs_view(filters@),
                fetch,
            },
            LogicalPlan::Projection { expr, input } => PlanView::Projection {
                expr: exprs_view(expr@),
                input: Box::new(input.view()),
            },
            LogicalPlan::Filter { predicate, input, having } => PlanView::Filter {
                predicate: predicate.view(),
                input: Box::new(input.view()),
                having,
            },
            LogicalPlan::Aggregate { group_expr, aggr_expr, input } => PlanView::Aggregate {
                group_expr: exprs_view(group_expr@),
                aggr_expr: exprs_view(aggr_expr@),
                input: Box::new(input.view()),
            },
            LogicalPlan::Sort { expr, input, fetch } => PlanView::Sort {
                expr: sorts_view(expr@),
                input: Box::new(input.view()),
                fetch,
            },
            LogicalPlan::Join {
                left,
                right,
                on,
                filter,
                join_type,
                join_constraint,
                null_equals_null,
            } => PlanView::Join {
                left: Box::new(left.view()),
                right: Box::new(right.view()),
                on: pairs_view(on@),
                filter: match filter {
                    Some(e) => Some(e.view()),
                    None => None,
                },
                join_type,
                join_constraint,
                null_equals_null,
            },
            LogicalPlan::SubqueryAlias { input, alias } => PlanView::SubqueryAlias {
                input: Box::new(input.view()),
                alias: alias@,
            },
            LogicalPlan::Limit { input, skip, fetch } => PlanView::Limit {
                input: Box::new(input.view()),
                skip: match skip {
                    Some(e) => Some(Box::new(e.view())),
                    None => None,
                },
                fetch: match fetch {
                    Some(e) => Some(Box::new(e.view())),
                    None => None,
                },
            },
            LogicalPlan::Rematerialize { input } => PlanView::Rematerialize {
                input: Box::new(input.view()),
            },
            LogicalPlan::ResultCheck { input, mode } => PlanView::ResultCheck {
                input: Box::new(input.view()),
                mode,
            },
            LogicalPlan::Other { kind, inputs } => PlanView::Other {
                kind,
                inputs: plans_view(inputs@),
            },
        }
    }
}

} // verus!
