//! Expressions with their columns as a schema spells them.
use crate::df_schema::{
    column_of, looked_up_field, lookup_keeps_name_and_qualifier, resolved_column,
    resolving_is_idempotent, DfSchema, QFieldView,
};
use crate::plan::{
    copy_ref_opt, exprs_view, pairs_view, sorts_view, Column, ColumnView, Expr, ExprView, SortExpr,
    SortView,
};
use vstd::prelude::*;

verus! {

/// How a column is matched to the fields of a schema.
#[derive(Debug, Clone, Copy, PartialEq, Eq, Structural)]
pub enum Resolution {
    /// Qualifiers may be stale: a column that is not found as it is goes to
    /// the first field of its name.
    Nearest,
    /// A column that does not resolve uniquely stays as it is: no qualifier
    /// is discarded or invented.
    Exact,
}

/// A column as the schema spells it.
pub open spec fn resolved_by(how: Resolution, s: Seq<QFieldView>, c: ColumnView) -> ColumnView {
    match how {
        Resolution::Nearest => resolved_column(s, c),
        Resolution::Exact => match looked_up_field(s, c) {
            Ok(i) => column_of(s[i]),
            Err(_) => c,
        },
    }
}

/// A column as the schema spells it.
pub fn resolve_by(how: Resolution, schema: &DfSchema, column: &Column) -> (r: Column)
    ensures
        r@ == resolved_by(how, schema@, column@),
{
    match how {
        Resolution::Nearest => schema.resolve(column),
        Resolution::Exact => match schema.look_up(column) {
            Ok(i) => {
                assert(schema@[i as int] == schema.fields@[i as int]@);
                schema.fields[i].column()
            },
            Err(_) => column.copy(),
        },
    }
}

/// An expression with every column as the schema spells it. The plans of
/// subqueries are left alone.
pub open spec fn resolved_expr(how: Resolution, s: Seq<QFieldView>, e: ExprView) -> ExprView
    decreases e,
{
    match e {
        ExprView::Alias { expr, relation, name } => ExprView::Alias {
            expr: Box::new(resolved_expr(how, s, *expr)),
            relation,
            name,
        },
        ExprView::Column(c) => ExprView::Column(resolved_by(how, s, c)),
        ExprView::Literal(v) => ExprView::Literal(v),
        ExprView::BinaryExpr { left, op, right } => ExprView::BinaryExpr {
            left: Box::new(resolved_expr(how, s, *left)),
            op,
            right: Box::new(resolved_expr(how, s, *right)),
        },
        ExprView::Like { negated, expr, pattern, escape_char, case_insensitive } => ExprView::Like {
            negated,
            expr: Box::new(resolved_expr(how, s, *expr)),
            pattern: Box::new(resolved_expr(how, s, *pattern)),
            escape_char,
            case_insensitive,
        },
        ExprView::Between { expr, negated, low, high } => ExprView::Between {
            expr: Box::new(resolved_expr(how, s, *expr)),
            negated,
            low: Box::new(resolved_expr(how, s, *low)),
            high: Box::new(resolved_expr(how, s, *high)),
        },
        ExprView::Case { expr, when_then, else_expr } => ExprView::Case {
            expr: match expr {
                Some(x) => Some(Box::new(resolved_expr(how, s, *x))),
                None => None,
            },
            when_then: resolved_pairs(how, s, when_then),
            else_expr: match else_expr {
                Some(x) => Some(Box::new(resolved_expr(how, s, *x))),
                None => None,
            },
        },
        ExprView::Cast { expr, data_type } => ExprView::Cast {
            expr: Box::new(resolved_expr(how, s, *expr)),
            data_type,
        },
        ExprView::ScalarFunction { func, args } => ExprView::ScalarFunction {
            func,
            args: resolved_exprs(how, s, args),
        },
        ExprView::AggregateFunction { func, args, distinct, filter, order_by, null_treatment } =>
        ExprView::AggregateFunction {
            func,
            args: resolved_exprs(how, s, args),
            distinct,
            filter: match filter {
                Some(x) => Some(Box::new(resolved_expr(how, s, *x))),
                None => None,
            },
            order_by: match order_by {
                Some(o) => Some(resolved_sorts(how, s, o)),
                None => None,
            },
            null_treatment,
        },
        ExprView::InList { expr, list, negated } => ExprView::InList {
            expr: Box::new(resolved_expr(how, s, *expr)),
            list: resolved_exprs(how, s, list),
            negated,
        },
        ExprView::InSubquery { expr, subquery, negated } => ExprView::InSubquery {
            expr: Box::new(resolved_expr(how, s, *expr)),
            subquery,
            negated,
        },
        ExprView::Other { kind, operands } => ExprView::Other {
            kind,
            operands: resolved_exprs(how, s, operands),
        },
    }
}

/// A list of expressions with every column as the schema spells it.
pub open spec fn resolved_exprs(how: Resolution, s: Seq<QFieldView>, list: Seq<ExprView>) -> Seq<ExprView>
    decreases list,
{
    Seq::new(
        list.len(),
        |i: int|
            if 0 <= i < list.len() {
                resolved_expr(how, s, list[i])
            } else {
                arbitrary()
            },
    )
}

/// A list of pairs with every column as the schema spells it.
pub open spec fn resolved_pairs(how: Resolution, s: Seq<QFieldView>, list: Seq<(ExprView, ExprView)>) -> Seq<
    (ExprView, ExprView),
>
    decreases list,
{
    Seq::new(
        list.len(),
        |i: int|
            if 0 <= i < list.len() {
                (resolved_expr(how, s, list[i].0), resolved_expr(how, s, list[i].1))
            } else {
                arbitrary()
            },
    )
}

/// A list of sort keys with every column as the schema spells it.
pub open spec fn resolved_sorts(how: Resolution, s: Seq<QFieldView>, list: Seq<SortView>) -> Seq<SortView>
    decreases list,
{
    Seq::new(
        list.len(),
        |i: int|
            if 0 <= i < list.len() {
                SortView {
                    expr: resolved_expr(how, s, list[i].expr),
                    asc: list[i].asc,
                    nulls_first: list[i].nulls_first,
                }
            } else {
                arbitrary()
            },
    )
}

/// An expression with every column as the schema spells it.
pub fn resolve_expr(how: Resolution, schema: &DfSchema, expr: &Expr) -> (r: Expr)
    ensures
        r@ == resolved_expr(how, schema@, expr@),
    decreases expr,
{
    match expr {
        Expr::Alias { expr: inner, relation, name } => Expr::Alias {
            expr: Box::new(resolve_expr(how, schema, inner)),
            relation: copy_ref_opt(relation),
            name: name.clone(),
        },
        Expr::Column(c) => Expr::Column(resolve_by(how, schema, c)),
        Expr::Literal(v) => Expr::Literal(v.copy()),
        Expr::BinaryExpr { left, op, right } => Expr::BinaryExpr {
            left: Box::new(resolve_expr(how, schema, left)),
            op: *op,
            right: Box::new(resolve_expr(how, schema, right)),
        },
        Expr::Like { negated, expr: inner, pattern, escape_char, case_insensitive } => Expr::Like {
            negated: *negated,
            expr: Box::new(resolve_expr(how, schema, inner)),
            pattern: Box::new(resolve_expr(how, schema, pattern)),
            escape_char: *escape_char,
            case_insensitive: *case_insensitive,
        },
        Expr::Between { expr: inner, negated, low, high } => Expr::Between {
            expr: Box::new(resolve_expr(how, schema, inner)),
            negated: *negated,
            low: Box::new(resolve_expr(how, schema, low)),
            high: Box::new(resolve_expr(how, schema, high)),
        },
        Expr::Case { expr: inner, when_then, else_expr } => Expr::Case {
            expr: match inner {
                Some(x) => Some(Box::new(resolve_expr(how, schema, x))),
                None => None,
            },
            when_then: resolve_pairs(how, schema, when_then),
            else_expr: match else_expr {
                Some(x) => Some(Box::new(resolve_expr(how, schema, x))),
                None => None,
            },
        },
        Expr::Cast { expr: inner, data_type } => Expr::Cast {
            expr: Box::new(resolve_expr(how, schema, inner)),
            data_type: data_type.copy(),
        },
        Expr::ScalarFunction { func, args } => Expr::ScalarFunction {
            func: func.clone(),
            args: resolve_exprs(how, schema, args),
        },
        Expr::AggregateFunction { func, args, distinct, filter, order_by, null_treatment } =>
        Expr::AggregateFunction {
            func: func.clone(),
            args: resolve_exprs(how, schema, args),
            distinct: *distinct,
            filter: match filter {
                Some(x) => Some(Box::new(resolve_expr(how, schema, x))),
                None => None,
            },
            order_by: match order_by {
                Some(o) => Some(resolve_sorts(how, schema, o)),
                None => None,
            },
            null_treatment: *null_treatment,
        },
        Expr::InList { expr: inner, list, negated } => Expr::InList {
            expr: Box::new(resolve_expr(how, schema, inner)),
            list: resolve_exprs(how, schema, list),
            negated: *negated,
        },
        Expr::InSubquery { expr: inner, subquery, negated } => Expr::InSubquery {
            expr: Box::new(resolve_expr(how, schema, inner)),
            subquery: subquery.copy(),
            negated: *negated,
        },
        Expr::Other { kind, operands } => Expr::Other {
            kind: *kind,
            operands: resolve_exprs(how, schema, operands),
        },
    }
}

/// A list of expressions with every column as the schema spells it.
pub fn resolve_exprs(how: Resolution, schema: &DfSchema, list: &Vec<Expr>) -> (r: Vec<Expr>)
    ensures
        exprs_view(r@) == resolved_exprs(how, schema@, exprs_view(list@)),
    decreases list,
{
    let ghost views = exprs_view(list@);
    let mut out: Vec<Expr> = Vec::new();
    let mut i: usize = 0;
    while i < list.len()
        invariant
            i <= list@.len(),
            views == exprs_view(list@),
            out@.len() == i,
            forall|j: int|
                0 <= j < i ==> (#[trigger] out@[j])@ == resolved_expr(how, schema@, views[j]),
        decreases list@.len() - i,
    {
        assert(decreases_to!(list => list@[i as int]));
        assert(views[i as int] == list@[i as int]@);
        out.push(resolve_expr(how, schema, &list[i]));
        i = i + 1;
    }
    assert(exprs_view(out@) =~= resolved_exprs(how, schema@, views));
    out
}

fn resolve_pairs(how: Resolution, schema: &DfSchema, list: &Vec<(Expr, Expr)>) -> (r: Vec<(Expr, Expr)>)
    ensures
        pairs_view(r@) == resolved_pairs(how, schema@, pairs_view(list@)),
    decreases list,
{
    let ghost views = pairs_view(list@);
    let mut out: Vec<(Expr, Expr)> = Vec::new();
    let mut i: usize = 0;
    while i < list.len()
        invariant
            i <= list@.len(),
            views == pairs_view(list@),
            out@.len() == i,
            forall|j: int|
                0 <= j < i ==> (#[trigger] out@[j]).0@ == resolved_expr(how, schema@, views[j].0)
                    && out@[j].1@ == resolved_expr(how, schema@, views[j].1),
        decreases list@.len() - i,
    {
        assert(decreases_to!(list => list@[i as int]));
        let pair: &(Expr, Expr) = &list[i];
        assert(views[i as int] == (pair.0@, pair.1@));
        out.push((resolve_expr(how, schema, &pair.0), resolve_expr(how, schema, &pair.1)));
        i = i + 1;
    }
    assert(pairs_view(out@) =~= resolved_pairs(how, schema@, views));
    out
}

pub fn resolve_sorts(how: Resolution, schema: &DfSchema, list: &Vec<SortExpr>) -> (r: Vec<SortExpr>)
    ensures
        sorts_view(r@) == resolved_sorts(how, schema@, sorts_view(list@)),
    decreases list,
{
    let ghost views = sorts_view(list@);
    let mut out: Vec<SortExpr> = Vec::new();
    let mut i: usize = 0;
    while i < list.len()
        invariant
            i <= list@.len(),
            views == sorts_view(list@),
            out@.len() == i,
            forall|j: int|
                0 <= j < i ==> (#[trigger] out@[j])@ == (SortView {
                    expr: resolved_expr(how, schema@, views[j].expr),
                    asc: views[j].asc,
                    nulls_first: views[j].nulls_first,
                }),
        decreases list@.len() - i,
    {
        assert(decreases_to!(list => list@[i as int]));
        assert(views[i as int] == list@[i as int]@);
        let key: &SortExpr = &list[i];
        out.push(
            SortExpr {
                expr: resolve_expr(how, schema, &key.expr),
                asc: key.asc,
                nulls_first: key.nulls_first,
            },
        );
        i = i + 1;
    }
    assert(sorts_view(out@) =~= resolved_sorts(how, schema@, views));
    out
}

/// Resolving a column never changes its name. A column that does not resolve
/// uniquely stays as it is where no qualifier may be invented, and one that
/// does is spelled as a field of the schema.
pub proof fn resolving_keeps_names(how: Resolution, s: Seq<QFieldView>, c: ColumnView)
    ensures
        resolved_by(how, s, c).name == c.name,
        how == Resolution::Exact ==> match looked_up_field(s, c) {
            Ok(i) => 0 <= i < s.len() && resolved_by(how, s, c).relation == s[i].qualifier,
            Err(_) => resolved_by(how, s, c) == c,
        },
        how == Resolution::Nearest ==> resolved_by(how, s, resolved_by(how, s, c)) == resolved_by(
            how,
            s,
            c,
        ),
{
    lookup_keeps_name_and_qualifier(s, c);
    resolving_is_idempotent(s, c);
}

/// Resolving an expression keeps its kind, its constants, and the order of its
/// operands: only columns change.
pub proof fn resolving_keeps_expressions(how: Resolution, s: Seq<QFieldView>, e: ExprView)
    ensures
        e matches ExprView::Literal(v) ==> resolved_expr(how, s, e) == e,
        e matches ExprView::Column(c) ==> resolved_expr(how, s, e) matches ExprView::Column(d)
            && d.name == c.name,
        e matches ExprView::Alias { expr, relation, name } ==> resolved_expr(
            how,
            s,
            e,
        ) matches ExprView::Alias { expr: x, relation: q, name: n } && *x == resolved_expr(
            how,
            s,
            *expr,
        ) && q == relation && n == name,
        e matches ExprView::BinaryExpr { left, op, right } ==> resolved_expr(
            how,
            s,
            e,
        ) matches ExprView::BinaryExpr { left: a, op: o, right: b } && *a == resolved_expr(
            how,
            s,
            *left,
        ) && o == op && *b == resolved_expr(how, s, *right),
        e matches ExprView::Between { expr, negated, low, high } ==> resolved_expr(
            how,
            s,
            e,
        ) matches ExprView::Between { expr: x, negated: n, low: a, high: b } && *x == resolved_expr(
            how,
            s,
            *expr,
        ) && n == negated && *a == resolved_expr(how, s, *low) && *b == resolved_expr(
            how,
            s,
            *high,
        ),
        e matches ExprView::Like { negated, expr, pattern, escape_char, case_insensitive }
            ==> resolved_expr(how, s, e) matches ExprView::Like {
            negated: n,
            expr: x,
            pattern: p,
            escape_char: c,
            case_insensitive: i,
        } && n == negated && *x == resolved_expr(how, s, *expr) && *p == resolved_expr(
            how,
            s,
            *pattern,
        ) && c == escape_char && i == case_insensitive,
        e matches ExprView::InList { list, negated, .. } ==> resolved_expr(
            how,
            s,
            e,
        ) matches ExprView::InList { list: l, negated: n, .. } && l.len() == list.len() && n
            == negated,
        e matches ExprView::InSubquery { subquery, negated, .. } ==> resolved_expr(
            how,
            s,
            e,
        ) matches ExprView::InSubquery { subquery: q, negated: n, .. } && q == subquery && n
            == negated,
        e matches ExprView::Cast { data_type, .. } ==> resolved_expr(
            how,
            s,
            e,
        ) matches ExprView::Cast { data_type: t, .. } && t == data_type,
        e matches ExprView::ScalarFunction { func, args } ==> resolved_expr(
            how,
            s,
            e,
        ) matches ExprView::ScalarFunction { func: f, args: l } && f == func && l.len()
            == args.len(),
        e matches ExprView::AggregateFunction { func, args, distinct, filter, .. }
            ==> resolved_expr(how, s, e) matches ExprView::AggregateFunction {
            func: f,
            args: l,
            distinct: d,
            filter: p,
            ..
        } && f == func && l.len() == args.len() && d == distinct && p is Some == filter is Some,
        e matches ExprView::Case { expr, when_then, else_expr } ==> resolved_expr(
            how,
            s,
            e,
        ) matches ExprView::Case { expr: x, when_then: l, else_expr: y } && x is Some
            == expr is Some && l.len() == when_then.len() && y is Some == else_expr is Some,
{
    reveal_with_fuel(resolved_expr, 2);
    match e {
        ExprView::Column(c) => {
            resolving_keeps_names(how, s, c);
        },
        _ => {},
    }
}

/// A list is resolved item by item, in order, and a sort key keeps its
/// direction.
pub proof fn resolving_keeps_lists(
    how: Resolution,
    s: Seq<QFieldView>,
    list: Seq<ExprView>,
    keys: Seq<SortView>,
    pairs: Seq<(ExprView, ExprView)>,
    i: int,
)
    ensures
        resolved_exprs(how, s, list).len() == list.len(),
        resolved_sorts(how, s, keys).len() == keys.len(),
        resolved_pairs(how, s, pairs).len() == pairs.len(),
        0 <= i < list.len() ==> resolved_exprs(how, s, list)[i] == resolved_expr(how, s, list[i]),
        0 <= i < keys.len() ==> resolved_sorts(how, s, keys)[i].expr == resolved_expr(
            how,
            s,
            keys[i].expr,
        ) && resolved_sorts(how, s, keys)[i].asc == keys[i].asc && resolved_sorts(
            how,
            s,
            keys,
        )[i].nulls_first == keys[i].nulls_first,
        0 <= i < pairs.len() ==> resolved_pairs(how, s, pairs)[i].0 == resolved_expr(
            how,
            s,
            pairs[i].0,
        ) && resolved_pairs(how, s, pairs)[i].1 == resolved_expr(how, s, pairs[i].1),
{
    reveal_with_fuel(resolved_exprs, 2);
    reveal_with_fuel(resolved_sorts, 2);
    reveal_with_fuel(resolved_pairs, 2);
}

} // verus!
