//! Copies of constants, expressions and plans.
use crate::plan::{
    bytes_opt, copy_ref_opt, exprs_view, indices_opt, pairs_view, plans_view, sorts_view, Expr,
    LogicalPlan, ScalarValue, Schema, SortExpr, Subquery,
};
use crate::schema::{copy_fields, copy_text_opt};
use vstd::prelude::*;

verus! {

/// A copy of a byte string.
pub fn copy_bytes(b: &Vec<u8>) -> (r: Vec<u8>)
    ensures
        r@ == b@,
{
    let mut out: Vec<u8> = Vec::new();
    let mut i: usize = 0;
    while i < b.len()
        invariant
            i <= b@.len(),
            out@ == b@.take(i as int),
        decreases b@.len() - i,
    {
        out.push(b[i]);
        i = i + 1;
        assert(out@ =~= b@.take(i as int));
    }
    assert(out@ =~= b@);
    out
}

/// A copy of an optional byte string.
pub fn copy_bytes_opt(b: &Option<Vec<u8>>) -> (r: Option<Vec<u8>>)
    ensures
        bytes_opt(r) == bytes_opt(*b),
{
    match b {
        Some(v) => Some(copy_bytes(v)),
        None => None,
    }
}

/// A copy of an optional index list.
pub fn copy_indices_opt(v: &Option<Vec<usize>>) -> (r: Option<Vec<usize>>)
    ensures
        indices_opt(r) == indices_opt(*v),
{
    match v {
        Some(x) => {
            let mut out: Vec<usize> = Vec::new();
            let mut i: usize = 0;
            while i < x.len()
                invariant
                    i <= x@.len(),
                    out@ == x@.take(i as int),
                decreases x@.len() - i,
            {
                out.push(x[i]);
                i = i + 1;
                assert(out@ =~= x@.take(i as int));
            }
            assert(out@ =~= x@);
            Some(out)
        },
        None => None,
    }
}

impl ScalarValue {
    /// An equal constant.
    pub fn copy(&self) -> (r: ScalarValue)
        ensures
            r@ == self@,
    {
        match self {
            ScalarValue::Null => ScalarValue::Null,
            ScalarValue::Boolean(a) => ScalarValue::Boolean(*a),
            ScalarValue::Float32(a) => ScalarValue::Float32(*a),
            ScalarValue::Float64(a) => ScalarValue::Float64(*a),
            ScalarValue::Decimal128(a, b, c) => ScalarValue::Decimal128(*a, *b, *c),
            ScalarValue::Decimal256(a, b, c) => ScalarValue::Decimal256(*a, *b, *c),
            ScalarValue::Int8(a) => ScalarValue::Int8(*a),
            ScalarValue::Int16(a) => ScalarValue::Int16(*a),
            ScalarValue::Int32(a) => ScalarValue::Int32(*a),
            ScalarValue::Int64(a) => ScalarValue::Int64(*a),
            ScalarValue::UInt8(a) => ScalarValue::UInt8(*a),
            ScalarValue::UInt16(a) => ScalarValue::UInt16(*a),
            ScalarValue::UInt32(a) => ScalarValue::UInt32(*a),
            ScalarValue::UInt64(a) => ScalarValue::UInt64(*a),
            ScalarValue::Utf8(a) => ScalarValue::Utf8(copy_text_opt(a)),
            ScalarValue::Utf8View(a) => ScalarValue::Utf8View(copy_text_opt(a)),
            ScalarValue::LargeUtf8(a) => ScalarValue::LargeUtf8(copy_text_opt(a)),
            ScalarValue::Binary(a) => ScalarValue::Binary(copy_bytes_opt(a)),
            ScalarValue::BinaryView(a) => ScalarValue::BinaryView(copy_bytes_opt(a)),
            ScalarValue::FixedSizeBinary(a, b) => ScalarValue::FixedSizeBinary(*a, copy_bytes_opt(b)),
            ScalarValue::LargeBinary(a) => ScalarValue::LargeBinary(copy_bytes_opt(a)),
            ScalarValue::Date32(a) => ScalarValue::Date32(*a),
            ScalarValue::Date64(a) => ScalarValue::Date64(*a),
            ScalarValue::Time32Second(a) => ScalarValue::Time32Second(*a),
            ScalarValue::Time32Millisecond(a) => ScalarValue::Time32Millisecond(*a),
            ScalarValue::Time64Microsecond(a) => ScalarValue::Time64Microsecond(*a),
            ScalarValue::Time64Nanosecond(a) => ScalarValue::Time64Nanosecond(*a),
            ScalarValue::TimestampSecond(a, b) => ScalarValue::TimestampSecond(*a, copy_text_opt(b)),
            ScalarValue::TimestampMillisecond(a, b) => ScalarValue::TimestampMillisecond(*a, copy_text_opt(b)),
            ScalarValue::TimestampMicrosecond(a, b) => ScalarValue::TimestampMicrosecond(*a, copy_text_opt(b)),
            ScalarValue::TimestampNanosecond(a, b) => ScalarValue::TimestampNanosecond(*a, copy_text_opt(b)),
            ScalarValue::IntervalYearMonth(a) => ScalarValue::IntervalYearMonth(*a),
            ScalarValue::IntervalDayTime(a) => ScalarValue::IntervalDayTime(*a),
            ScalarValue::IntervalMonthDayNano(a) => ScalarValue::IntervalMonthDayNano(*a),
            ScalarValue::DurationSecond(a) => ScalarValue::DurationSecond(*a),
            ScalarValue::DurationMillisecond(a) => ScalarValue::DurationMillisecond(*a),
            ScalarValue::DurationMicrosecond(a) => ScalarValue::DurationMicrosecond(*a),
            ScalarValue::DurationNanosecond(a) => ScalarValue::DurationNanosecond(*a),
            ScalarValue::Nested(a) => ScalarValue::Nested(*a),
        }
    }
}

impl Schema {
    /// An equal schema.
    pub fn copy(&self) -> (r: Schema)
        ensures
            r@ == self@,
    {
        Schema { fields: copy_fields(&self.fields), metadata: self.metadata.copy() }
    }
}

impl SortExpr {
    /// An equal sort key.
    pub fn copy(&self) -> (r: SortExpr)
        ensures
            r@ == self@,
        decreases self,
    {
        SortExpr { expr: self.expr.copy(), asc: self.asc, nulls_first: self.nulls_first }
    }
}

impl Subquery {
    /// An equal subquery.
    pub fn copy(&self) -> (r: Subquery)
        ensures
            r@ == self@,
        decreases self,
    {
        Subquery {
            subquery: Box::new(self.subquery.copy()),
            outer_ref_columns: copy_exprs(&self.outer_ref_columns),
        }
    }
}

/// Copies of the expressions, in order.
pub fn copy_exprs(list: &Vec<Expr>) -> (r: Vec<Expr>)
    ensures
        exprs_view(r@) == exprs_view(list@),
    decreases list,
{
    let mut out: Vec<Expr> = Vec::new();
    let mut i: usize = 0;
    while i < list.len()
        invariant
            i <= list@.len(),
            out@.len() == i,
            forall|j: int| 0 <= j < i ==> (#[trigger] out@[j])@ == list@[j]@,
        decreases list@.len() - i,
    {
        assert(decreases_to!(list => list@[i as int]));
        out.push(list[i].copy());
        i = i + 1;
    }
    assert(exprs_view(out@) =~= exprs_view(list@));
    out
}

/// Copies of the pairs of expressions, in order.
pub fn copy_pairs(list: &Vec<(Expr, Expr)>) -> (r: Vec<(Expr, Expr)>)
    ensures
        pairs_view(r@) == pairs_view(list@),
    decreases list,
{
    let mut out: Vec<(Expr, Expr)> = Vec::new();
    let mut i: usize = 0;
    while i < list.len()
        invariant
            i <= list@.len(),
            out@.len() == i,
            forall|j: int|
                0 <= j < i ==> (#[trigger] out@[j]).0@ == list@[j].0@ && out@[j].1@ == list@[j].1@,
        decreases list@.len() - i,
    {
        assert(decreases_to!(list => list@[i as int]));
        let pair: &(Expr, Expr) = &list[i];
        out.push((pair.0.copy(), pair.1.copy()));
        i = i + 1;
    }
    assert(pairs_view(out@) =~= pairs_view(list@));
    out
}

/// Copies of the sort keys, in order.
pub fn copy_sorts(list: &Vec<SortExpr>) -> (r: Vec<SortExpr>)
    ensures
        sorts_view(r@) == sorts_view(list@),
    decreases list,
{
    let mut out: Vec<SortExpr> = Vec::new();
    let mut i: usize = 0;
    while i < list.len()
        invariant
            i <= list@.len(),
            out@.len() == i,
            forall|j: int| 0 <= j < i ==> (#[trigger] out@[j])@ == list@[j]@,
        decreases list@.len() - i,
    {
        assert(decreases_to!(list => list@[i as int]));
        out.push(list[i].copy());
        i = i + 1;
    }
    assert(sorts_view(out@) =~= sorts_view(list@));
    out
}

/// Copies of the plans, in order.
pub fn copy_plans(list: &Vec<LogicalPlan>) -> (r: Vec<LogicalPlan>)
    ensures
        plans_view(r@) == plans_view(list@),
    decreases list,
{
    let mut out: Vec<LogicalPlan> = Vec::new();
    let mut i: usize = 0;
    while i < list.len()
        invariant
            i <= list@.len(),
            out@.len() == i,
            forall|j: int| 0 <= j < i ==> (#[trigger] out@[j])@ == list@[j]@,
        decreases list@.len() - i,
    {
        assert(decreases_to!(list => list@[i as int]));
        out.push(list[i].copy());
        i = i + 1;
    }
    assert(plans_view(out@) =~= plans_view(list@));
    out
}

impl Expr {
    /// An equal expression.
    pub fn copy(&self) -> (r: Expr)
        ensures
            r@ == self@,
        decreases self,
    {
        match self {
            Expr::Alias { expr, relation, name } => Expr::Alias {
                expr: Box::new(expr.copy()),
                relation: copy_ref_opt(relation),
                name: name.clone(),
            },
            Expr::Column(c) => Expr::Column(c.copy()),
            Expr::Literal(v) => Expr::Literal(v.copy()),
            Expr::BinaryExpr { left, op, right } => Expr::BinaryExpr {
                left: Box::new(left.copy()),
                op: *op,
                right: Box::new(right.copy()),
            },
            Expr::Like { negated, expr, pattern, escape_char, case_insensitive } => Expr::Like {
                negated: *negated,
                expr: Box::new(expr.copy()),
                pattern: Box::new(pattern.copy()),
                escape_char: *escape_char,
                case_insensitive: *case_insensitive,
            },
            Expr::Between { expr, negated, low, high } => Expr::Between {
                expr: Box::new(expr.copy()),
                negated: *negated,
                low: Box::new(low.copy()),
                high: Box::new(high.copy()),
            },
            Expr::Case { expr, when_then, else_expr } => Expr::Case {
                expr: match expr {
                    Some(e) => Some(Box::new(e.copy())),
                    None => None,
                },
                when_then: copy_pairs(when_then),
                else_expr: match else_expr {
                    Some(e) => Some(Box::new(e.copy())),
                    None => None,
                },
            },
            Expr::Cast { expr, data_type } => Expr::Cast {
                expr: Box::new(expr.copy()),
                data_type: data_type.copy(),
            },
            Expr::ScalarFunction { func, args } => Expr::ScalarFunction {
                func: func.clone(),
                args: copy_exprs(args),
            },
            Expr::AggregateFunction { func, args, distinct, filter, order_by, null_treatment } =>
            Expr::AggregateFunction {
                func: func.clone(),
                args: copy_exprs(args),
                distinct: *distinct,
                filter: match filter {
                    Some(e) => Some(Box::new(e.copy())),
                    None => None,
                },
                order_by: match order_by {
                    Some(o) => Some(copy_sorts(o)),
                    None => None,
                },
                null_treatment: *null_treatment,
            },
            Expr::InList { expr, list, negated } => Expr::InList {
                expr: Box::new(expr.copy()),
                list: copy_exprs(list),
                negated: *negated,
            },
            Expr::InSubquery { expr, subquery, negated } => Expr::InSubquery {
                expr: Box::new(expr.copy()),
                subquery: subquery.copy(),
                negated: *negated,
            },
            Expr::Other { kind, operands } => Expr::Other {
                kind: *kind,
                operands: copy_exprs(operands),
            },
        }
    }
}

impl LogicalPlan {
    /// An equal plan.
    pub fn copy(&self) -> (r: LogicalPlan)
        ensures
            r@ == self@,
        decreases self,
    {
        match self {
            LogicalPlan::TableScan { table_name, schema, projection, filters, fetch } =>
            LogicalPlan::TableScan {
                table_name: table_name.copy(),
                schema: schema.copy(),
                projection: copy_indices_opt(projection),
                filters: copy_exprs(filters),
                fetch: *fetch,
            },
            LogicalPlan::Projection { expr, input } => LogicalPlan::Projection {
                expr: copy_exprs(expr),
                input: Box::new(input.copy()),
            },
            LogicalPlan::Filter { predicate, input, having } => LogicalPlan::Filter {
                predicate: predicate.copy(),
                input: Box::new(input.copy()),
                having: *having,
            },
            LogicalPlan::Aggregate { group_expr, aggr_expr, input } => LogicalPlan::Aggregate {
                group_expr: copy_exprs(group_expr),
                aggr_expr: copy_exprs(aggr_expr),
                input: Box::new(input.copy()),
            },
            LogicalPlan::Sort { expr, input, fetch } => LogicalPlan::Sort {
                expr: copy_sorts(expr),
                input: Box::new(input.copy()),
                fetch: *fetch,
            },
            LogicalPlan::Join {
                left,
                right,
                on,
                filter,
                join_type,
                join_constraint,
                null_equals_null,
            } => LogicalPlan::Join {
                left: Box::new(left.copy()),
                right: Box::new(right.copy()),
                on: copy_pairs(on),
                filter: match filter {
                    Some(e) => Some(e.copy()),
                    None => None,
                },
                join_type: *join_type,
                join_constraint: *join_constraint,
                null_equals_null: *null_equals_null,
            },
            LogicalPlan::SubqueryAlias { input, alias } => LogicalPlan::SubqueryAlias {
                input: Box::new(input.copy()),
                alias: alias.copy(),
            },
            LogicalPlan::Limit { input, skip, fetch } => LogicalPlan::Limit {
                input: Box::new(input.copy()),
                skip: match skip {
                    Some(e) => Some(Box::new(e.copy())),
                    None => None,
                },
                fetch: match fetch {
                    Some(e) => Some(Box::new(e.copy())),
                    None => None,
                },
            },
            LogicalPlan::Rematerialize { input } => LogicalPlan::Rematerialize {
                input: Box::new(input.copy()),
            },
            LogicalPlan::ResultCheck { input, mode } => LogicalPlan::ResultCheck {
                input: Box::new(input.copy()),
                mode: *mode,
            },
            LogicalPlan::Other { kind, inputs } => LogicalPlan::Other {
                kind: *kind,
                inputs: copy_plans(inputs),
            },
        }
    }
}

} // verus!
