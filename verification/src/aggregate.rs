//! Aggregates: which columns of the input they pass on, the tables that
//! their gadget and their aggregate functions are handed, and the claims that
//! make an ungrouped extremum a single row.
use crate::claims::{
    boolean_claim, boolean_claim_is_boolean, boolean_sum_counts, boolean_values_pass, field_modulus,
    is_boolean, ones, residues, sum_claim, sum_claim_counts,
};
use crate::df_schema::{DfSchema, QFieldView};
use crate::hints::{
    append_activator_exprs_if_present, append_row_id_expr_if_present, flags_view, refers_to,
    set_flag, the_activators_are_all_that_is_added, the_row_number_is_all_that_is_added,
    with_activators, with_flag, with_system_columns, HintDF,
};
use crate::metadata::Metadata;
use crate::plan::{dotted, exprs_view, Column, ColumnView, Expr, ExprView};
use crate::resolve::{
    resolve_exprs, resolved_expr, resolved_exprs, resolving_keeps_expressions, Resolution,
};
use crate::schema::{
    fields_view, plain_field, same_text_opt, text_opt, DataType, Field, FieldView, TypeView,
};
use crate::seqs::{
    first_index, holds_index, indices_where, ints, join_all, joined, kept,
    kept_items_come_from_the_list, lemma_first_index, lemma_index_found, lemma_indices_step,
    lemma_indices_where, lemma_is_first, lemma_kept_step, lemma_no_first, no_kept_item_is_lost,
    positions_increase, texts_view,
};
use crate::table::{
    activator_field, activator_field_view, col_fields, cols_insert, cols_view, copy_cols,
    field_index, field_qualifier, find_name, holds_field, insert_col, is_segment_of,
    is_system_column, is_system_name, lemma_field_index, lemma_name_index, name_index, poly_named,
    qualifier_of, segment_of, subtable, subtables_hold_the_selection_and_the_system_columns,
    table_metadata, table_of, table_with, within, ColView, Party, Poly, PolyId, Table, TableView,
    TrackedColumn, ACTIVATOR_COL_NAME,
};
use crate::text::{join_text3, same_text};
use vstd::prelude::*;
use vstd::string::*;

verus! {

/// Label of the table of group keys of the input.
pub const INPUT_LABEL: &'static str = "__input__";

/// Label of the table of group keys of the output.
pub const OUTPUT_LABEL: &'static str = "__output__";

/// Name of the constant key that stands for the one group of an aggregate
/// without group expressions.
pub const AGG_GROUP_KEY_COL_NAME: &'static str = "__agg_group_key__";

/// Name of the column that is claimed to be Boolean.
pub const PREDICATE_COL_NAME: &'static str = "predicate";

// ---------------------------------------------------------------------------
// The aggregate
// ---------------------------------------------------------------------------

/// An aggregate expression and the name that the planner lists its result
/// under: the text that the query engine prints for the expression. It comes
/// with the plan, and nothing here depends on how it is printed.
#[derive(Debug)]
pub struct NamedExpr {
    pub expr: Expr,
    pub schema_name: String,
}

/// An aggregate: its group expressions, its aggregate expressions and the
/// fields of its output.
#[derive(Debug)]
pub struct Aggregate {
    pub group_expr: Vec<Expr>,
    pub aggr_expr: Vec<NamedExpr>,
    pub schema: Vec<Field>,
}

/// Mathematical counterpart of [`NamedExpr`].
#[verifier::ext_equal]
pub struct NamedView {
    pub expr: ExprView,
    pub schema_name: Seq<char>,
}

/// Mathematical counterpart of [`Aggregate`].
#[verifier::ext_equal]
pub struct AggregateView {
    pub group_expr: Seq<ExprView>,
    pub aggr_expr: Seq<NamedView>,
    pub schema: Seq<FieldView>,
}

impl NamedExpr {
    /// The expression as a mathematical value.
    pub open spec fn view(&self) -> NamedView {
        NamedView { expr: self.expr@, schema_name: self.schema_name@ }
    }
}

impl Aggregate {
    /// The aggregate as a mathematical value.
    pub open spec fn view(&self) -> AggregateView {
        AggregateView {
            group_expr: exprs_view(self.group_expr@),
            aggr_expr: Seq::new(self.aggr_expr@.len(), |i: int| self.aggr_expr@[i]@),
            schema: fields_view(self.schema@),
        }
    }
}

/// An aggregate that cannot be wired.
#[derive(Debug, Clone, Copy, PartialEq, Eq, Structural)]
pub enum AggregateError {
    /// A group expression is no column reference.
    GroupNotColumn,
    /// A column is not found, or found more than once.
    Unresolved,
    /// A table without columns.
    NoColumns,
    /// The multiplicities are not one data column.
    Multiplicities,
    /// The gadget is not handed the group keys of the output.
    MissingOutput,
    /// The gadget is not handed the group keys of the input.
    MissingInput,
    /// The output has no activator.
    MissingActivator,
}

/// Whether an expression is an extremum, aliased or not.
pub open spec fn is_extremum(e: ExprView) -> bool
    decreases e,
{
    match e {
        ExprView::Alias { expr, .. } => is_extremum(*expr),
        ExprView::AggregateFunction { func, .. } => func == "max"@ || func == "min"@,
        _ => false,
    }
}

/// Whether an expression is an extremum, aliased or not.
pub fn is_extremum_expr(expr: &Expr) -> (r: bool)
    ensures
        r == is_extremum(expr@),
    decreases expr,
{
    match expr {
        Expr::Alias { expr: inner, .. } => is_extremum_expr(inner),
        Expr::AggregateFunction { func, .. } => same_text(func.as_str(), "max") || same_text(
            func.as_str(),
            "min",
        ),
        _ => false,
    }
}

/// Whether an expression is a count, aliased or not.
pub open spec fn is_count(e: ExprView) -> bool
    decreases e,
{
    match e {
        ExprView::Alias { expr, .. } => is_count(*expr),
        ExprView::AggregateFunction { func, .. } => func == "count"@,
        _ => false,
    }
}

/// Whether an expression is a count, aliased or not.
pub fn is_count_expr(expr: &Expr) -> (r: bool)
    ensures
        r == is_count(expr@),
    decreases expr,
{
    match expr {
        Expr::Alias { expr: inner, .. } => is_count_expr(inner),
        Expr::AggregateFunction { func, .. } => same_text(func.as_str(), "count"),
        _ => false,
    }
}

/// The name of an aggregate expression.
pub open spec fn name_of() -> spec_fn(NamedView) -> Option<Seq<char>> {
    |e: NamedView| Some(e.schema_name)
}

/// The name of an aggregate expression, where it is a count.
pub open spec fn name_if_count() -> spec_fn(NamedView) -> Option<Seq<char>> {
    |e: NamedView|
        if is_count(e.expr) {
            Some(e.schema_name)
        } else {
            None
        }
}

/// The name of a group expression, where it is a column.
pub open spec fn name_if_column() -> spec_fn(ExprView) -> Option<Seq<char>> {
    |e: ExprView|
        match e {
            ExprView::Column(c) => Some(c.name),
            _ => None,
        }
}

/// The names of the results of an aggregate.
pub open spec fn aggregate_names(a: AggregateView) -> Seq<Seq<char>> {
    kept(a.aggr_expr, name_of())
}

/// The names of the counts among the results.
pub open spec fn count_names(a: AggregateView) -> Seq<Seq<char>> {
    kept(a.aggr_expr, name_if_count())
}

/// The names of the group columns.
pub open spec fn group_names(a: AggregateView) -> Seq<Seq<char>> {
    kept(a.group_expr, name_if_column())
}

impl Aggregate {
    fn aggregate_output_names(&self) -> (r: Vec<String>)
        ensures
            texts_view(r@) == aggregate_names(self@),
    {
        let ghost views = self@.aggr_expr;
        let mut out: Vec<String> = Vec::new();
        let mut i: usize = 0;
        assert(texts_view(out@) =~= kept(views.take(0), name_of()));
        while i < self.aggr_expr.len()
            invariant
                i <= self.aggr_expr@.len(),
                views == self@.aggr_expr,
                texts_view(out@) == kept(views.take(i as int), name_of()),
            decreases self.aggr_expr@.len() - i,
        {
            proof {
                lemma_kept_step(views, name_of(), i as int);
            }
            let ghost before = texts_view(out@);
            let name: String = self.aggr_expr[i].schema_name.clone();
            out.push(name);
            assert(texts_view(out@) =~= before.push(name@));
            i = i + 1;
        }
        assert(views.take(views.len() as int) =~= views);
        out
    }

    /// The names of the counts among the results.
    pub fn count_output_names(&self) -> (r: Vec<String>)
        ensures
            texts_view(r@) == count_names(self@),
    {
        let ghost views = self@.aggr_expr;
        let mut out: Vec<String> = Vec::new();
        let mut i: usize = 0;
        assert(texts_view(out@) =~= kept(views.take(0), name_if_count()));
        while i < self.aggr_expr.len()
            invariant
                i <= self.aggr_expr@.len(),
                views == self@.aggr_expr,
                texts_view(out@) == kept(views.take(i as int), name_if_count()),
            decreases self.aggr_expr@.len() - i,
        {
            proof {
                lemma_kept_step(views, name_if_count(), i as int);
            }
            if is_count_expr(&self.aggr_expr[i].expr) {
                let ghost before = texts_view(out@);
                let name: String = self.aggr_expr[i].schema_name.clone();
                out.push(name);
                assert(texts_view(out@) =~= before.push(name@));
            }
            i = i + 1;
        }
        assert(views.take(views.len() as int) =~= views);
        out
    }

    fn group_output_names(&self) -> (r: Vec<String>)
        ensures
            texts_view(r@) == group_names(self@),
    {
        let ghost views = self@.group_expr;
        let mut out: Vec<String> = Vec::new();
        let mut i: usize = 0;
        assert(texts_view(out@) =~= kept(views.take(0), name_if_column()));
        while i < self.group_expr.len()
            invariant
                i <= self.group_expr@.len(),
                views == self@.group_expr,
                texts_view(out@) == kept(views.take(i as int), name_if_column()),
            decreases self.group_expr@.len() - i,
        {
            proof {
                lemma_kept_step(views, name_if_column(), i as int);
                assert(views[i as int] == self.group_expr@[i as int]@);
            }
            match &self.group_expr[i] {
                Expr::Column(c) => {
                    let ghost before = texts_view(out@);
                    let name: String = c.name.clone();
                    out.push(name);
                    assert(texts_view(out@) =~= before.push(name@));
                },
                _ => {},
            }
            i = i + 1;
        }
        assert(views.take(views.len() as int) =~= views);
        out
    }

    /// Whether the aggregate has group expressions.
    pub fn has_groups(&self) -> (r: bool)
        ensures
            r == (self@.group_expr.len() > 0),
    {
        self.group_expr.len() > 0
    }

    /// Whether the output must be shown to be a single row: an extremum
    /// without groups. With groups the uniqueness of the keys shows it; SQL's
    /// null row for an empty input is not modelled.
    pub fn needs_ungrouped_extremum_check(&self) -> (r: bool)
        ensures
            r == needs_single_row(self@),
    {
        if self.has_groups() {
            return false;
        }
        let mut i: usize = 0;
        while i < self.aggr_expr.len()
            invariant
                i <= self.aggr_expr@.len(),
                self@.group_expr.len() == 0,
                forall|j: int| 0 <= j < i ==> !is_extremum((#[trigger] self@.aggr_expr[j]).expr),
            decreases self.aggr_expr@.len() - i,
        {
            assert(self@.aggr_expr[i as int] == self.aggr_expr@[i as int]@);
            if is_extremum_expr(&self.aggr_expr[i].expr) {
                assert(is_extremum(self@.aggr_expr[i as int].expr));
                return true;
            }
            i = i + 1;
        }
        false
    }
}

/// Whether the output must be shown to be a single row.
pub open spec fn needs_single_row(a: AggregateView) -> bool {
    a.group_expr.len() == 0 && exists|i: int|
        0 <= i < a.aggr_expr.len() && is_extremum((#[trigger] a.aggr_expr[i]).expr)
}

/// An aggregate as text: its input, its groups and its results.
pub open spec fn aggregate_text(
    input: Seq<char>,
    groups: Seq<Seq<char>>,
    aggs: Seq<Seq<char>>,
) -> Seq<char> {
    "Aggregate\nInput: "@ + input + ", groups: "@ + (if groups.len() == 0 {
        "none"@
    } else {
        joined(groups, ", "@)
    }) + ", aggs: "@ + (if aggs.len() == 0 {
        "none"@
    } else {
        joined(aggs, ", "@)
    })
}

fn list_or_none(names: &Vec<String>) -> (r: String)
    ensures
        r@ == (if names@.len() == 0 {
            "none"@
        } else {
            joined(texts_view(names@), ", "@)
        }),
{
    if names.len() == 0 {
        "none".to_owned()
    } else {
        join_all(names, ", ")
    }
}

/// An aggregate as text, from the names of its nodes.
pub fn display(input: &str, groups: &Vec<String>, aggs: &Vec<String>) -> (r: String)
    ensures
        r@ == aggregate_text(input@, texts_view(groups@), texts_view(aggs@)),
{
    let mut out: String = join_text3("Aggregate\nInput: ", input, ", groups: ");
    out.append(list_or_none(groups).as_str());
    out.append(", aggs: ");
    out.append(list_or_none(aggs).as_str());
    out
}

// ---------------------------------------------------------------------------
// Finding columns
// ---------------------------------------------------------------------------

/// Satisfied by the fields of the given name.
pub open spec fn named(name: Seq<char>) -> spec_fn(FieldView) -> bool {
    |f: FieldView| f.name == name
}

/// Satisfied by the fields of the given name and qualifier.
pub open spec fn named_under(name: Seq<char>, qualifier: Option<Seq<char>>) -> spec_fn(
    FieldView,
) -> bool {
    |f: FieldView| f.name == name && qualifier_of(f) == qualifier
}

/// The single field of a name: the only one under the qualifier, or the only
/// one at all where none is under it.
pub open spec fn single_field(
    fields: Seq<FieldView>,
    name: Seq<char>,
    qualifier: Option<Seq<char>>,
) -> Option<int> {
    let under = indices_where(fields, named_under(name, qualifier));
    let all = indices_where(fields, named(name));
    if under.len() == 1 {
        Some(under[0])
    } else if under.len() == 0 && all.len() == 1 {
        Some(all[0])
    } else {
        None
    }
}

/// Position of the single column of a name.
pub fn find_tracked_index(table: &Table, name: &str, qualifier: &Option<String>) -> (r: Option<
    usize,
>)
    ensures
        match r {
            Some(i) => single_field(col_fields(table@.cols), name@, text_opt(*qualifier)) == Some(
                i as int,
            ) && i < table.cols@.len(),
            None => single_field(col_fields(table@.cols), name@, text_opt(*qualifier)) is None,
        },
{
    let ghost fields = col_fields(table@.cols);
    let ghost p = named(name@);
    let ghost q = named_under(name@, text_opt(*qualifier));
    let mut name_matches: Vec<usize> = Vec::new();
    let mut qualifier_matches: Vec<usize> = Vec::new();
    let mut i: usize = 0;
    assert(ints(name_matches@) =~= indices_where(fields.take(0), p));
    assert(ints(qualifier_matches@) =~= indices_where(fields.take(0), q));
    while i < table.cols.len()
        invariant
            i <= table.cols@.len(),
            fields == col_fields(table@.cols),
            p == named(name@),
            q == named_under(name@, text_opt(*qualifier)),
            ints(name_matches@) == indices_where(fields.take(i as int), p),
            ints(qualifier_matches@) == indices_where(fields.take(i as int), q),
            within(name_matches@, table.cols@.len()),
            within(qualifier_matches@, table.cols@.len()),
        decreases table.cols@.len() - i,
    {
        proof {
            lemma_indices_step(fields, p, i as int);
            lemma_indices_step(fields, q, i as int);
            assert(fields[i as int] == table.cols@[i as int].field@);
        }
        let field: &Field = &table.cols[i].field;
        if same_text(field.name.as_str(), name) {
            let ghost a = ints(name_matches@);
            name_matches.push(i);
            assert(ints(name_matches@) =~= a.push(i as int));
            if same_text_opt(&field_qualifier(field), qualifier) {
                let ghost b = ints(qualifier_matches@);
                qualifier_matches.push(i);
                assert(ints(qualifier_matches@) =~= b.push(i as int));
            }
        }
        i = i + 1;
    }
    assert(fields.take(fields.len() as int) =~= fields);
    assert(ints(name_matches@).len() == name_matches@.len());
    assert(ints(qualifier_matches@).len() == qualifier_matches@.len());
    if qualifier_matches.len() == 1 {
        Some(qualifier_matches[0])
    } else if qualifier_matches.len() == 0 && name_matches.len() == 1 {
        Some(name_matches[0])
    } else {
        None
    }
}

/// The qualifier of a column as text.
pub open spec fn qualifier_text(c: ColumnView) -> Option<Seq<char>> {
    match c.relation {
        Some(r) => Some(dotted(r)),
        None => None,
    }
}

fn column_qualifier(column: &Column) -> (r: Option<String>)
    ensures
        text_opt(r) == qualifier_text(column@),
{
    match &column.relation {
        Some(t) => Some(t.to_text()),
        None => None,
    }
}

/// Satisfied by the segments of a column.
pub open spec fn is_segment(base: Seq<char>) -> spec_fn(FieldView) -> bool {
    |f: FieldView| segment_of(f.name, base)
}

/// Satisfied by the segments of a column that belong to a primary segment
/// under the qualifier: those under it, and the auxiliary ones that carry no
/// qualifier of their own.
pub open spec fn is_segment_under(base: Seq<char>, qualifier: Option<Seq<char>>) -> spec_fn(
    FieldView,
) -> bool {
    |f: FieldView|
        segment_of(f.name, base) && (qualifier_of(f) == qualifier || (qualifier_of(f) is None
            && f.name != base))
}

/// Positions of all the segments of a column. Where a qualifier is given and
/// some primary segment is under it, only the segments of such primaries
/// count.
pub open spec fn group_segments(
    fields: Seq<FieldView>,
    base: Seq<char>,
    qualifier: Option<Seq<char>>,
) -> Seq<int> {
    if qualifier is Some && first_index(fields, named_under(base, qualifier)) is Some {
        indices_where(fields, is_segment_under(base, qualifier))
    } else {
        indices_where(fields, is_segment(base))
    }
}

/// Positions of all the segments of a column: the primary one and the
/// auxiliary ones.
pub fn find_tracked_indices_with_segments(
    table: &Table,
    base_name: &str,
    qualifier: &Option<String>,
) -> (r: Vec<usize>)
    ensures
        ints(r@) == group_segments(col_fields(table@.cols), base_name@, text_opt(*qualifier)),
        within(r@, table.cols@.len()),
{
    let ghost fields = col_fields(table@.cols);
    let ghost p = is_segment(base_name@);
    let ghost q = is_segment_under(base_name@, text_opt(*qualifier));
    let ghost primary = named_under(base_name@, text_opt(*qualifier));
    let mut name_matches: Vec<usize> = Vec::new();
    let mut qualifier_matches: Vec<usize> = Vec::new();
    let mut saw_qualified_primary: bool = false;
    let mut i: usize = 0;
    assert(ints(name_matches@) =~= indices_where(fields.take(0), p));
    assert(ints(qualifier_matches@) =~= indices_where(fields.take(0), q));
    while i < table.cols.len()
        invariant
            i <= table.cols@.len(),
            fields == col_fields(table@.cols),
            p == is_segment(base_name@),
            q == is_segment_under(base_name@, text_opt(*qualifier)),
            primary == named_under(base_name@, text_opt(*qualifier)),
            ints(name_matches@) == indices_where(fields.take(i as int), p),
            ints(qualifier_matches@) == indices_where(fields.take(i as int), q),
            within(name_matches@, table.cols@.len()),
            within(qualifier_matches@, table.cols@.len()),
            saw_qualified_primary ==> exists|j: int| 0 <= j < i && primary(#[trigger] fields[j]),
            !saw_qualified_primary ==> forall|j: int|
                0 <= j < i ==> !primary(#[trigger] fields[j]),
        decreases table.cols@.len() - i,
    {
        proof {
            lemma_indices_step(fields, p, i as int);
            lemma_indices_step(fields, q, i as int);
            assert(fields[i as int] == table.cols@[i as int].field@);
        }
        let field: &Field = &table.cols[i].field;
        if is_segment_of(field.name.as_str(), base_name) {
            let ghost a = ints(name_matches@);
            name_matches.push(i);
            assert(ints(name_matches@) =~= a.push(i as int));
            let own: Option<String> = field_qualifier(field);
            let same: bool = same_text_opt(&own, qualifier);
            let is_primary: bool = same_text(field.name.as_str(), base_name);
            if same && is_primary {
                assert(primary(fields[i as int]));
                saw_qualified_primary = true;
            }
            let bare: bool = match own {
                Some(_) => false,
                None => true,
            };
            if same || (bare && !is_primary) {
                let ghost b = ints(qualifier_matches@);
                qualifier_matches.push(i);
                assert(ints(qualifier_matches@) =~= b.push(i as int));
            }
        }
        i = i + 1;
    }
    assert(fields.take(fields.len() as int) =~= fields);
    proof {
        lemma_first_index(fields, primary);
        if !saw_qualified_primary {
            lemma_no_first(fields, primary);
        }
    }
    let qualified: bool = match qualifier {
        Some(_) => true,
        None => false,
    };
    if qualified && saw_qualified_primary {
        qualifier_matches
    } else {
        name_matches
    }
}

/// Where some primary segment is under the given qualifier, no other primary
/// segment is taken for the column.
pub proof fn qualified_groups_keep_to_their_qualifier(
    fields: Seq<FieldView>,
    base: Seq<char>,
    qualifier: Option<Seq<char>>,
    k: int,
)
    requires
        qualifier is Some,
        first_index(fields, named_under(base, qualifier)) is Some,
        0 <= k < group_segments(fields, base, qualifier).len(),
        fields[group_segments(fields, base, qualifier)[k]].name == base,
    ensures
        qualifier_of(fields[group_segments(fields, base, qualifier)[k]]) == qualifier,
{
    lemma_indices_hold(fields, is_segment_under(base, qualifier), k);
}

/// The positions that are found hold what was looked for.
proof fn lemma_indices_hold(fields: Seq<FieldView>, p: spec_fn(FieldView) -> bool, k: int)
    requires
        0 <= k < indices_where(fields, p).len(),
    ensures
        0 <= indices_where(fields, p)[k] < fields.len(),
        p(fields[indices_where(fields, p)[k]]),
    decreases fields.len(),
{
    if fields.len() > 0 {
        let before = indices_where(fields.drop_last(), p);
        if k < before.len() {
            lemma_indices_hold(fields.drop_last(), p, k);
            assert(indices_where(fields, p)[k] == before[k]);
        }
    }
}

// ---------------------------------------------------------------------------
// The tables of the gadget
// ---------------------------------------------------------------------------

/// Positions of the segments of all group columns, in the order of the group
/// expressions.
pub open spec fn group_positions(fields: Seq<FieldView>, group_expr: Seq<ExprView>) -> Result<
    Seq<int>,
    AggregateError,
>
    decreases group_expr.len(),
{
    if group_expr.len() == 0 {
        Ok(Seq::empty())
    } else {
        match group_positions(fields, group_expr.drop_last()) {
            Err(e) => Err(e),
            Ok(before) => match group_expr.last() {
                ExprView::Column(c) => Ok(
                    before + group_segments(fields, c.name, qualifier_text(c)),
                ),
                _ => Err(AggregateError::GroupNotColumn),
            },
        }
    }
}

/// The positions with that of the activator, where the table has one that is
/// not among them.
pub open spec fn with_activator_at(cols: Seq<ColView>, positions: Seq<int>) -> Seq<int> {
    match name_index(cols, ACTIVATOR_COL_NAME@) {
        Some(i) if !positions.contains(i) => positions.push(i),
        _ => positions,
    }
}

/// The table of an aggregate without groups: the constant key over the
/// domain of the first column, and the activator; none where the table has
/// no column.
pub open spec fn single_group(t: TableView) -> Option<TableView> {
    if t.cols.len() == 0 {
        None
    } else {
        let first = t.cols[0].poly;
        let key = cols_insert(
            Seq::empty(),
            plain_field(AGG_GROUP_KEY_COL_NAME@, TypeView::Boolean, false),
            Poly { id: PolyId::One, tracker: first.tracker, log_size: first.log_size },
        );
        let cols = match poly_named(t, ACTIVATOR_COL_NAME@) {
            Some(a) => cols_insert(key, activator_field_view(), a),
            None => key,
        };
        Some(table_with(cols, table_metadata(t), t.log_size))
    }
}

/// The table of an aggregate without groups.
pub fn single_group_table(table: &Table) -> (r: Option<Table>)
    ensures
        match r {
            Some(t) => single_group(table@) == Some(t@),
            None => single_group(table@) is None,
        },
{
    if table.cols.len() == 0 {
        return None;
    }
    assert(table@.cols[0] == table.cols@[0]@);
    let first: Poly = table.cols[0].poly;
    let mut cols: Vec<TrackedColumn> = Vec::new();
    assert(cols_view(cols@) =~= Seq::<ColView>::empty());
    insert_col(
        &mut cols,
        Field::new(AGG_GROUP_KEY_COL_NAME, DataType::Boolean, false),
        Poly { id: PolyId::One, tracker: first.tracker, log_size: first.log_size },
    );
    match table.activator() {
        Some(a) => insert_col(&mut cols, activator_field(), a),
        None => {},
    }
    Some(Table::with_metadata(cols, table.metadata(), table.log_size))
}

/// The group keys of a table: the constant key where there are no group
/// expressions, else the segments of the group columns and the activator.
pub open spec fn group_keys(t: TableView, group_expr: Seq<ExprView>) -> Result<
    TableView,
    AggregateError,
> {
    if group_expr.len() == 0 {
        match single_group(t) {
            Some(g) => Ok(g),
            None => Err(AggregateError::NoColumns),
        }
    } else {
        match group_positions(col_fields(t.cols), group_expr) {
            Ok(positions) => Ok(subtable(t, with_activator_at(t.cols, positions))),
            Err(e) => Err(e),
        }
    }
}

fn find_group_positions(table: &Table, group_expr: &Vec<Expr>) -> (r: Result<
    Vec<usize>,
    AggregateError,
>)
    ensures
        match r {
            Ok(list) => group_positions(col_fields(table@.cols), exprs_view(group_expr@)) == Ok::<
                Seq<int>,
                AggregateError,
            >(ints(list@)) && within(list@, table.cols@.len()),
            Err(e) => group_positions(col_fields(table@.cols), exprs_view(group_expr@)) == Err::<
                Seq<int>,
                AggregateError,
            >(e),
        },
{
    let ghost fields = col_fields(table@.cols);
    let ghost views = exprs_view(group_expr@);
    let mut out: Vec<usize> = Vec::new();
    let mut i: usize = 0;
    assert(views.take(0) =~= Seq::<ExprView>::empty());
    assert(ints(out@) =~= Seq::<int>::empty());
    while i < group_expr.len()
        invariant
            i <= group_expr@.len(),
            fields == col_fields(table@.cols),
            views == exprs_view(group_expr@),
            group_positions(fields, views.take(i as int)) == Ok::<Seq<int>, AggregateError>(
                ints(out@),
            ),
            within(out@, table.cols@.len()),
        decreases group_expr@.len() - i,
    {
        proof {
            assert(views.take(i + 1).drop_last() =~= views.take(i as int));
            assert(views.take(i + 1).last() == group_expr@[i as int]@);
        }
        match &group_expr[i] {
            Expr::Column(c) => {
                let qualifier: Option<String> = column_qualifier(c);
                let mut found: Vec<usize> = find_tracked_indices_with_segments(
                    table,
                    c.name.as_str(),
                    &qualifier,
                );
                let ghost before = out@;
                let ghost more = found@;
                out.append(&mut found);
                assert(ints(out@) =~= ints(before) + ints(more));
                assert(within(out@, table.cols@.len())) by {
                    assert forall|k: int| 0 <= k < out@.len() implies (#[trigger] out@[k])
                        < table.cols@.len() by {
                        if k < before.len() {
                            assert(out@[k] == before[k]);
                        } else {
                            assert(out@[k] == more[k - before.len()]);
                        }
                    }
                }
            },
            _ => {
                proof {
                    lemma_group_error(fields, views, i as int);
                }
                return Err(AggregateError::GroupNotColumn);
            },
        }
        i = i + 1;
    }
    assert(views.take(views.len() as int) =~= views);
    Ok(out)
}

/// A group expression that is no column fails the whole list.
proof fn lemma_group_error(fields: Seq<FieldView>, group_expr: Seq<ExprView>, i: int)
    requires
        0 <= i < group_expr.len(),
        !(group_expr[i] is Column),
    ensures
        group_positions(fields, group_expr) == Err::<Seq<int>, AggregateError>(
            AggregateError::GroupNotColumn,
        ),
    decreases group_expr.len(),
{
    if i < group_expr.len() - 1 {
        assert(group_expr.drop_last()[i] == group_expr[i]);
        lemma_group_error(fields, group_expr.drop_last(), i);
    } else {
        assert(group_expr.last() == group_expr[i]);
        lemma_group_errors_alike(fields, group_expr.drop_last());
    }
}

/// The only way for the positions to fail.
proof fn lemma_group_errors_alike(fields: Seq<FieldView>, group_expr: Seq<ExprView>)
    ensures
        group_positions(fields, group_expr) matches Err(e) ==> e == AggregateError::GroupNotColumn,
    decreases group_expr.len(),
{
    if group_expr.len() > 0 {
        lemma_group_errors_alike(fields, group_expr.drop_last());
    }
}

/// The group keys of a table.
pub fn group_keys_table(table: &Table, group_expr: &Vec<Expr>) -> (r: Result<
    Table,
    AggregateError,
>)
    ensures
        match r {
            Ok(t) => group_keys(table@, exprs_view(group_expr@)) == Ok::<TableView, AggregateError>(
                t@,
            ),
            Err(e) => group_keys(table@, exprs_view(group_expr@)) == Err::<
                TableView,
                AggregateError,
            >(e),
        },
{
    if group_expr.len() == 0 {
        return match single_group_table(table) {
            Some(t) => Ok(t),
            None => Err(AggregateError::NoColumns),
        };
    }
    let mut positions: Vec<usize> = match find_group_positions(table, group_expr) {
        Ok(list) => list,
        Err(e) => return Err(e),
    };
    let ghost found = positions@;
    match find_name(&table.cols, ACTIVATOR_COL_NAME) {
        Some(i) => {
            assert(found.contains(i) == ints(found).contains(i as int)) by {
                if found.contains(i) {
                    let j = choose|j: int| 0 <= j < found.len() && found[j] == i;
                    assert(ints(found)[j] == i as int);
                }
                if ints(found).contains(i as int) {
                    let j = choose|j: int| 0 <= j < ints(found).len() && ints(found)[j] == i as int;
                    assert(found[j] == i);
                }
            }
            if !holds_index(&positions, i) {
                positions.push(i);
                assert(ints(positions@) =~= ints(found).push(i as int));
            }
        },
        None => {},
    }
    Ok(table.tracked_subtable_by_indices(&positions))
}

/// The group keys of the input and of the output, as the gadget is handed
/// them.
pub open spec fn gadget_tables(a: AggregateView, input: TableView, output: TableView) -> Result<
    (TableView, TableView),
    AggregateError,
> {
    match (group_keys(input, a.group_expr), group_keys(output, a.group_expr)) {
        (Ok(i), Ok(o)) => Ok((i, o)),
        (Err(e), _) => Err(e),
        (_, Err(e)) => Err(e),
    }
}

/// The group keys of the input and of the output, as the gadget is handed
/// them under [`INPUT_LABEL`] and [`OUTPUT_LABEL`].
pub fn populate_aggregate_gadget(aggregate: &Aggregate, input: &Table, output: &Table) -> (r: Result<
    (Table, Table),
    AggregateError,
>)
    ensures
        match r {
            Ok((i, o)) => gadget_tables(aggregate@, input@, output@) == Ok::<
                (TableView, TableView),
                AggregateError,
            >((i@, o@)),
            Err(e) => gadget_tables(aggregate@, input@, output@) == Err::<
                (TableView, TableView),
                AggregateError,
            >(e),
        },
{
    let input_keys: Table = match group_keys_table(input, &aggregate.group_expr) {
        Ok(t) => t,
        Err(e) => return Err(e),
    };
    let output_keys: Table = match group_keys_table(output, &aggregate.group_expr) {
        Ok(t) => t,
        Err(e) => return Err(e),
    };
    Ok((input_keys, output_keys))
}

// ---------------------------------------------------------------------------
// The tables of the aggregate functions
// ---------------------------------------------------------------------------

/// Positions of the group columns, each resolved to a single field.
pub open spec fn group_columns(fields: Seq<FieldView>, group_expr: Seq<ExprView>) -> Result<
    Seq<int>,
    AggregateError,
>
    decreases group_expr.len(),
{
    if group_expr.len() == 0 {
        Ok(Seq::empty())
    } else {
        match group_columns(fields, group_expr.drop_last()) {
            Err(e) => Err(e),
            Ok(before) => match group_expr.last() {
                ExprView::Column(c) => match single_field(fields, c.name, qualifier_text(c)) {
                    Some(i) => Ok(before.push(i)),
                    None => Err(AggregateError::Unresolved),
                },
                _ => Err(AggregateError::GroupNotColumn),
            },
        }
    }
}

/// The groups that the aggregate functions are handed.
pub open spec fn function_groups(t: TableView, group_expr: Seq<ExprView>) -> Result<
    TableView,
    AggregateError,
> {
    match group_columns(col_fields(t.cols), group_expr) {
        Err(e) => Err(e),
        Ok(positions) => if positions.len() == 0 {
            match single_group(t) {
                Some(g) => Ok(g),
                None => Err(AggregateError::NoColumns),
            }
        } else {
            Ok(subtable(t, positions))
        },
    }
}

/// The result column that an aggregate function is handed; none for a count,
/// whose result comes from the multiplicities.
pub open spec fn function_column(t: TableView, counts: Seq<Seq<char>>, e: NamedView) -> Result<
    Option<TableView>,
    AggregateError,
> {
    if counts.contains(e.schema_name) {
        Ok(None)
    } else {
        match single_field(col_fields(t.cols), e.schema_name, None) {
            Some(i) => Ok(Some(subtable(t, seq![i]))),
            None => Err(AggregateError::Unresolved),
        }
    }
}

/// What the aggregate functions are handed: the groups, and for each
/// function its result column.
#[derive(Debug)]
pub struct FunctionTables {
    pub groups: Table,
    pub columns: Vec<Option<Table>>,
}

/// The optional table as a mathematical value.
pub open spec fn table_opt(t: Option<Table>) -> Option<TableView> {
    match t {
        Some(x) => Some(x@),
        None => None,
    }
}

/// The first function that cannot be handed its column.
pub open spec fn bad_function(t: TableView, counts: Seq<Seq<char>>) -> spec_fn(NamedView) -> bool {
    |e: NamedView| function_column(t, counts, e) is Err
}

/// Whether tables are what the functions of an aggregate are to be handed.
pub open spec fn function_tables_are(
    a: AggregateView,
    t: TableView,
    r: Result<FunctionTables, AggregateError>,
) -> bool {
    match function_groups(t, a.group_expr) {
        Err(e) => r == Err::<FunctionTables, AggregateError>(e),
        Ok(groups) => match first_index(a.aggr_expr, bad_function(t, count_names(a))) {
            Some(i) => r == Err::<FunctionTables, AggregateError>(AggregateError::Unresolved),
            None => match r {
                Ok(f) => f.groups@ == groups && f.columns@.len() == a.aggr_expr.len() && forall|
                    i: int,
                |
                    0 <= i < f.columns@.len() ==> function_column(
                        t,
                        count_names(a),
                        a.aggr_expr[i],
                    ) == Ok::<Option<TableView>, AggregateError>(
                        table_opt(#[trigger] f.columns@[i]),
                    ),
                Err(_) => false,
            },
        },
    }
}

fn find_group_columns(table: &Table, group_expr: &Vec<Expr>) -> (r: Result<
    Vec<usize>,
    AggregateError,
>)
    ensures
        match r {
            Ok(list) => group_columns(col_fields(table@.cols), exprs_view(group_expr@)) == Ok::<
                Seq<int>,
                AggregateError,
            >(ints(list@)) && within(list@, table.cols@.len()),
            Err(e) => group_columns(col_fields(table@.cols), exprs_view(group_expr@)) == Err::<
                Seq<int>,
                AggregateError,
            >(e),
        },
{
    let ghost fields = col_fields(table@.cols);
    let ghost views = exprs_view(group_expr@);
    let mut out: Vec<usize> = Vec::new();
    let mut i: usize = 0;
    assert(views.take(0) =~= Seq::<ExprView>::empty());
    assert(ints(out@) =~= Seq::<int>::empty());
    while i < group_expr.len()
        invariant
            i <= group_expr@.len(),
            fields == col_fields(table@.cols),
            views == exprs_view(group_expr@),
            group_columns(fields, views.take(i as int)) == Ok::<Seq<int>, AggregateError>(
                ints(out@),
            ),
            within(out@, table.cols@.len()),
        decreases group_expr@.len() - i,
    {
        proof {
            assert(views.take(i + 1).drop_last() =~= views.take(i as int));
            assert(views.take(i + 1).last() == group_expr@[i as int]@);
            lemma_group_columns_prefix(fields, views, i + 1);
        }
        let column: &Column = match &group_expr[i] {
            Expr::Column(c) => c,
            _ => return Err(AggregateError::GroupNotColumn),
        };
        let qualifier: Option<String> = column_qualifier(column);
        match find_tracked_index(table, column.name.as_str(), &qualifier) {
            Some(k) => {
                let ghost before = ints(out@);
                out.push(k);
                assert(ints(out@) =~= before.push(k as int));
            },
            None => return Err(AggregateError::Unresolved),
        }
        i = i + 1;
    }
    assert(views.take(views.len() as int) =~= views);
    Ok(out)
}

/// The first failure decides.
proof fn lemma_group_columns_prefix(fields: Seq<FieldView>, group_expr: Seq<ExprView>, n: int)
    requires
        0 <= n <= group_expr.len(),
    ensures
        group_columns(fields, group_expr.take(n)) matches Err(e) ==> group_columns(
            fields,
            group_expr,
        ) == Err::<Seq<int>, AggregateError>(e),
    decreases group_expr.len() - n,
{
    if n < group_expr.len() {
        assert(group_expr.take(n + 1).drop_last() =~= group_expr.take(n));
        lemma_group_columns_prefix(fields, group_expr, n + 1);
    } else {
        assert(group_expr.take(n) =~= group_expr);
    }
}

fn holds_name(list: &Vec<String>, name: &str) -> (r: bool)
    ensures
        r == texts_view(list@).contains(name@),
{
    let mut i: usize = 0;
    while i < list.len()
        invariant
            i <= list@.len(),
            forall|j: int| 0 <= j < i ==> #[trigger] texts_view(list@)[j] != name@,
        decreases list@.len() - i,
    {
        if same_text(list[i].as_str(), name) {
            assert(texts_view(list@)[i as int] == name@);
            return true;
        }
        i = i + 1;
    }
    false
}

fn function_result(table: &Table, counts: &Vec<String>, expr: &NamedExpr) -> (r: Result<
    Option<Table>,
    AggregateError,
>)
    ensures
        match r {
            Ok(t) => function_column(table@, texts_view(counts@), expr@) == Ok::<
                Option<TableView>,
                AggregateError,
            >(table_opt(t)),
            Err(e) => function_column(table@, texts_view(counts@), expr@) is Err && e
                == AggregateError::Unresolved,
        },
{
    if holds_name(counts, expr.schema_name.as_str()) {
        return Ok(None);
    }
    match find_tracked_index(table, expr.schema_name.as_str(), &None) {
        Some(k) => {
            let mut list: Vec<usize> = Vec::new();
            list.push(k);
            assert(ints(list@) =~= seq![k as int]);
            Ok(Some(table.tracked_subtable_by_indices(&list)))
        },
        None => Err(AggregateError::Unresolved),
    }
}

/// What the aggregate functions are handed of the output: the groups, and
/// for each function its result column.
pub fn populate_aggregate_function_exprs(aggregate: &Aggregate, table: &Table) -> (r: Result<
    FunctionTables,
    AggregateError,
>)
    ensures
        function_tables_are(aggregate@, table@, r),
{
    let positions: Vec<usize> = match find_group_columns(table, &aggregate.group_expr) {
        Ok(list) => list,
        Err(e) => return Err(e),
    };
    assert(ints(positions@).len() == positions@.len());
    let groups: Table = if positions.len() == 0 {
        match single_group_table(table) {
            Some(t) => t,
            None => return Err(AggregateError::NoColumns),
        }
    } else {
        table.tracked_subtable_by_indices(&positions)
    };
    let counts: Vec<String> = aggregate.count_output_names();
    let ghost names = count_names(aggregate@);
    let ghost views = aggregate@.aggr_expr;
    let ghost bad = bad_function(table@, names);
    let mut columns: Vec<Option<Table>> = Vec::new();
    let mut i: usize = 0;
    while i < aggregate.aggr_expr.len()
        invariant
            i <= aggregate.aggr_expr@.len(),
            views == aggregate@.aggr_expr,
            names == count_names(aggregate@),
            names == texts_view(counts@),
            bad == bad_function(table@, names),
            function_groups(table@, aggregate@.group_expr) is Ok,
            columns@.len() == i,
            forall|j: int| 0 <= j < i ==> !bad(#[trigger] views[j]),
            forall|j: int|
                0 <= j < i ==> function_column(table@, names, views[j]) == Ok::<
                    Option<TableView>,
                    AggregateError,
                >(table_opt(#[trigger] columns@[j])),
        decreases aggregate.aggr_expr@.len() - i,
    {
        assert(views[i as int] == aggregate.aggr_expr@[i as int]@);
        match function_result(table, &counts, &aggregate.aggr_expr[i]) {
            Ok(t) => {
                columns.push(t);
            },
            Err(e) => {
                proof {
                    lemma_is_first(views, bad, i as int);
                }
                return Err(e);
            },
        }
        i = i + 1;
    }
    proof {
        lemma_no_first(views, bad);
    }
    Ok(FunctionTables { groups, columns })
}

/// Why the functions of an aggregate cannot be handed their tables.
pub open spec fn function_fault(a: AggregateView, t: TableView) -> Option<AggregateError> {
    match function_groups(t, a.group_expr) {
        Err(e) => Some(e),
        Ok(_) => match first_index(a.aggr_expr, bad_function(t, count_names(a))) {
            Some(_) => Some(AggregateError::Unresolved),
            None => None,
        },
    }
}

/// What an aggregate hands on: the tables of its functions, where the party
/// wires them, and, where its input is there, the group keys for its gadget.
#[derive(Debug)]
pub struct PlanWiring {
    pub functions: Option<FunctionTables>,
    pub gadget: Option<(Table, Table)>,
}

/// Whether a wiring is what an aggregate is to hand on. Without an output
/// there is nothing to hand on. The verifier wires the functions, and does so
/// before the gadget; the prover wires the gadget alone.
pub open spec fn plan_wiring_is(
    a: AggregateView,
    input: Option<TableView>,
    output: Option<TableView>,
    party: Party,
    r: Result<Option<PlanWiring>, AggregateError>,
) -> bool {
    match (output, r) {
        (None, Ok(w)) => w is None,
        (Some(o), Ok(Some(w))) => {
            &&& match (party, w.functions) {
                (Party::Verifier, Some(f)) => function_tables_are(a, o, Ok(f)),
                (Party::Prover, None) => true,
                _ => false,
            }
            &&& match (input, w.gadget) {
                (None, None) => true,
                (Some(i), Some((x, y))) => gadget_tables(a, i, o) == Ok::<
                    (TableView, TableView),
                    AggregateError,
                >((x@, y@)),
                _ => false,
            }
        },
        (Some(o), Err(e)) => if party == Party::Verifier && function_fault(a, o) is Some {
            function_fault(a, o) == Some(e)
        } else {
            input matches Some(i) && gadget_tables(a, i, o) == Err::<
                (TableView, TableView),
                AggregateError,
            >(e)
        },
        _ => false,
    }
}

/// What an aggregate hands to its functions and to its gadget.
pub fn initialize_plan_gadgets(
    aggregate: &Aggregate,
    input: Option<&Table>,
    output: Option<&Table>,
    party: Party,
) -> (r: Result<Option<PlanWiring>, AggregateError>)
    ensures
        plan_wiring_is(aggregate@, table_ref(input), table_ref(output), party, r),
{
    let table: &Table = match output {
        Some(t) => t,
        None => return Ok(None),
    };
    let functions: Option<FunctionTables> = match party {
        Party::Prover => None,
        Party::Verifier => match populate_aggregate_function_exprs(aggregate, table) {
            Ok(f) => Some(f),
            Err(e) => return Err(e),
        },
    };
    let gadget: Option<(Table, Table)> = match input {
        Some(i) => match populate_aggregate_gadget(aggregate, i, table) {
            Ok(pair) => Some(pair),
            Err(e) => return Err(e),
        },
        None => None,
    };
    Ok(Some(PlanWiring { functions, gadget }))
}

// ---------------------------------------------------------------------------
// The output table
// ---------------------------------------------------------------------------

/// Whether a name is a segment of one of the columns.
pub open spec fn segment_of_any(name: Seq<char>, bases: Seq<Seq<char>>) -> bool {
    exists|i: int| 0 <= i < bases.len() && segment_of(name, #[trigger] bases[i])
}

/// Whether a column of the input is passed on: the segments of the group
/// columns, but for the activator and what the aggregate computes itself.
pub open spec fn passed_on(a: AggregateView, name: Seq<char>) -> bool {
    name != ACTIVATOR_COL_NAME@ && !segment_of_any(name, aggregate_names(a)) && segment_of_any(
        name,
        group_names(a),
    )
}

/// The columns without the one at `i`, whose place the last one takes.
pub open spec fn swap_removed(cols: Seq<ColView>, i: int) -> Seq<ColView> {
    cols.update(i, cols.last()).drop_last()
}

/// The columns with `c` in place of the first of its name.
pub open spec fn with_passed(cols: Seq<ColView>, c: ColView) -> Seq<ColView> {
    let rest = match name_index(cols, c.field.name) {
        Some(i) => swap_removed(cols, i),
        None => cols,
    };
    cols_insert(rest, c.field, c.poly)
}

/// The output columns with those that the first `n` columns of the input
/// pass on.
pub open spec fn merged_cols(
    a: AggregateView,
    current: Seq<ColView>,
    input: Seq<ColView>,
    n: nat,
) -> Seq<ColView>
    decreases n,
{
    if n == 0 {
        current
    } else {
        let before = merged_cols(a, current, input, (n - 1) as nat);
        if passed_on(a, input[n - 1].field.name) {
            with_passed(before, input[n - 1])
        } else {
            before
        }
    }
}

/// The names that no column has.
pub open spec fn missing_names(cols: Seq<ColView>) -> spec_fn(Seq<char>) -> Option<Seq<char>> {
    |name: Seq<char>|
        if name_index(cols, name) is None {
            Some(name)
        } else {
            None
        }
}

/// The columns with the multiplicities under each of the names.
pub open spec fn with_counts(cols: Seq<ColView>, names: Seq<Seq<char>>, m: ColView) -> Seq<ColView>
    decreases names.len(),
{
    if names.len() == 0 {
        cols
    } else {
        cols_insert(
            with_counts(cols, names.drop_last(), m),
            plain_field(names.last(), m.field.data_type, m.field.nullable),
            m.poly,
        )
    }
}

/// Satisfied by the columns that hold data.
pub open spec fn is_data() -> spec_fn(ColView) -> bool {
    |c: ColView| !is_system_name(c.field.name)
}

/// The columns with the missing counts taken from the multiplicities, where
/// there are any; these must then be one data column.
pub open spec fn counted_cols(
    a: AggregateView,
    cols: Seq<ColView>,
    multiplicities: Option<TableView>,
) -> Result<Seq<ColView>, AggregateError> {
    let missing = kept(count_names(a), missing_names(cols));
    match multiplicities {
        Some(m) if missing.len() > 0 => {
            let data = indices_where(m.cols, is_data());
            if data.len() == 1 {
                Ok(with_counts(cols, missing, m.cols[data[0]]))
            } else {
                Err(AggregateError::Multiplicities)
            }
        },
        _ => Ok(cols),
    }
}

/// The output of an aggregate. Its columns are those planned for it, with
/// the group columns taken from the input and missing counts from the
/// multiplicities. Its size is the planned one; where nothing is planned,
/// that of the input. The prover asks whether the planned table has a schema,
/// the verifier whether there is one.
pub open spec fn output_table(
    a: AggregateView,
    input: TableView,
    current: Option<TableView>,
    multiplicities: Option<TableView>,
    party: Party,
) -> Result<TableView, AggregateError> {
    let planned = match current {
        Some(t) => t.cols,
        None => Seq::empty(),
    };
    match counted_cols(a, merged_cols(a, planned, input.cols, input.cols.len()), multiplicities) {
        Err(e) => Err(e),
        Ok(cols) => {
            let has_schema = current is Some && current->0.schema is Some;
            let sized = match party {
                Party::Prover => has_schema,
                Party::Verifier => current is Some,
            };
            Ok(
                table_with(
                    cols,
                    if has_schema {
                        table_metadata(current->0)
                    } else {
                        table_metadata(input)
                    },
                    if sized {
                        current->0.log_size
                    } else {
                        input.log_size
                    },
                ),
            )
        },
    }
}

fn is_segment_of_any(name: &str, bases: &Vec<String>) -> (r: bool)
    ensures
        r == segment_of_any(name@, texts_view(bases@)),
{
    let mut i: usize = 0;
    while i < bases.len()
        invariant
            i <= bases@.len(),
            forall|j: int| 0 <= j < i ==> !segment_of(name@, #[trigger] texts_view(bases@)[j]),
        decreases bases@.len() - i,
    {
        assert(texts_view(bases@)[i as int] == bases@[i as int]@);
        if is_segment_of(name, bases[i].as_str()) {
            return true;
        }
        i = i + 1;
    }
    false
}

fn pass_on(cols: &mut Vec<TrackedColumn>, c: &TrackedColumn)
    ensures
        cols_view(final(cols)@) == with_passed(cols_view(old(cols)@), c@),
{
    let ghost before = cols_view(cols@);
    match find_name(cols, c.field.name.as_str()) {
        Some(i) => {
            let _ = cols.swap_remove(i);
            assert(cols_view(cols@) =~= swap_removed(before, i as int));
        },
        None => {},
    }
    insert_col(cols, c.field.copy(), c.poly);
}

fn merge_cols(aggregate: &Aggregate, cols: &mut Vec<TrackedColumn>, input: &Table)
    ensures
        cols_view(final(cols)@) == merged_cols(
            aggregate@,
            cols_view(old(cols)@),
            input@.cols,
            input@.cols.len(),
        ),
{
    let ghost planned = cols_view(cols@);
    let aggregates: Vec<String> = aggregate.aggregate_output_names();
    let groups: Vec<String> = aggregate.group_output_names();
    let mut i: usize = 0;
    while i < input.cols.len()
        invariant
            i <= input.cols@.len(),
            texts_view(aggregates@) == aggregate_names(aggregate@),
            texts_view(groups@) == group_names(aggregate@),
            cols_view(cols@) == merged_cols(aggregate@, planned, input@.cols, i as nat),
        decreases input.cols@.len() - i,
    {
        let c: &TrackedColumn = &input.cols[i];
        assert(input@.cols[i as int] == c@);
        let name: &str = c.field.name.as_str();
        if !same_text(name, ACTIVATOR_COL_NAME) && !is_segment_of_any(name, &aggregates)
            && is_segment_of_any(name, &groups) {
            pass_on(cols, c);
        }
        i = i + 1;
    }
}

fn missing_counts(aggregate: &Aggregate, cols: &Vec<TrackedColumn>) -> (r: Vec<String>)
    ensures
        texts_view(r@) == kept(count_names(aggregate@), missing_names(cols_view(cols@))),
{
    let counts: Vec<String> = aggregate.count_output_names();
    let ghost views = texts_view(counts@);
    let ghost f = missing_names(cols_view(cols@));
    let mut out: Vec<String> = Vec::new();
    let mut i: usize = 0;
    assert(texts_view(out@) =~= kept(views.take(0), f));
    while i < counts.len()
        invariant
            i <= counts@.len(),
            views == texts_view(counts@),
            f == missing_names(cols_view(cols@)),
            texts_view(out@) == kept(views.take(i as int), f),
        decreases counts@.len() - i,
    {
        proof {
            lemma_kept_step(views, f, i as int);
            assert(views[i as int] == counts@[i as int]@);
        }
        match find_name(cols, counts[i].as_str()) {
            Some(_) => {},
            None => {
                let ghost before = texts_view(out@);
                let name: String = counts[i].clone();
                out.push(name);
                assert(texts_view(out@) =~= before.push(name@));
            },
        }
        i = i + 1;
    }
    assert(views.take(views.len() as int) =~= views);
    out
}

/// Positions of the columns that hold data.
pub fn data_indices(table: &Table) -> (r: Vec<usize>)
    ensures
        ints(r@) == indices_where(table@.cols, is_data()),
        within(r@, table.cols@.len()),
{
    let ghost p = is_data();
    let mut out: Vec<usize> = Vec::new();
    let mut i: usize = 0;
    assert(ints(out@) =~= indices_where(table@.cols.take(0), p));
    while i < table.cols.len()
        invariant
            i <= table.cols@.len(),
            p == is_data(),
            ints(out@) == indices_where(table@.cols.take(i as int), p),
            within(out@, table.cols@.len()),
        decreases table.cols@.len() - i,
    {
        proof {
            lemma_indices_step(table@.cols, p, i as int);
            assert(table@.cols[i as int] == table.cols@[i as int]@);
        }
        if !is_system_column(table.cols[i].field.name.as_str()) {
            let ghost before = ints(out@);
            out.push(i);
            assert(ints(out@) =~= before.push(i as int));
        }
        i = i + 1;
    }
    assert(table@.cols.take(table@.cols.len() as int) =~= table@.cols);
    out
}

fn add_counts(
    aggregate: &Aggregate,
    cols: &mut Vec<TrackedColumn>,
    multiplicities: Option<&Table>,
) -> (r: Result<(), AggregateError>)
    ensures
        match r {
            Ok(()) => counted_cols(
                aggregate@,
                cols_view(old(cols)@),
                match multiplicities {
                    Some(m) => Some(m@),
                    None => None,
                },
            ) == Ok::<Seq<ColView>, AggregateError>(cols_view(final(cols)@)),
            Err(e) => counted_cols(
                aggregate@,
                cols_view(old(cols)@),
                match multiplicities {
                    Some(m) => Some(m@),
                    None => None,
                },
            ) == Err::<Seq<ColView>, AggregateError>(e),
        },
{
    let table: &Table = match multiplicities {
        Some(m) => m,
        None => return Ok(()),
    };
    let ghost base = cols_view(cols@);
    let missing: Vec<String> = missing_counts(aggregate, cols);
    let ghost names = texts_view(missing@);
    if missing.len() == 0 {
        assert(names.len() == 0);
        return Ok(());
    }
    let data: Vec<usize> = data_indices(table);
    assert(ints(data@).len() == data@.len());
    if data.len() != 1 {
        return Err(AggregateError::Multiplicities);
    }
    let m: &TrackedColumn = &table.cols[data[0]];
    assert(table@.cols[ints(data@)[0]] == m@);
    let mut i: usize = 0;
    assert(names.take(0) =~= Seq::<Seq<char>>::empty());
    while i < missing.len()
        invariant
            i <= missing@.len(),
            names == texts_view(missing@),
            cols_view(cols@) == with_counts(base, names.take(i as int), m@),
        decreases missing@.len() - i,
    {
        proof {
            assert(names.take(i + 1).drop_last() =~= names.take(i as int));
            assert(names.take(i + 1).last() == missing@[i as int]@);
        }
        let field: Field = Field::new(
            missing[i].as_str(),
            m.field.data_type.copy(),
            m.field.nullable,
        );
        insert_col(cols, field, m.poly);
        i = i + 1;
    }
    assert(names.take(names.len() as int) =~= names);
    Ok(())
}

/// The output of an aggregate.
pub fn add_virtual_witness(
    aggregate: &Aggregate,
    input: &Table,
    current: Option<&Table>,
    multiplicities: Option<&Table>,
    party: Party,
) -> (r: Result<Table, AggregateError>)
    ensures
        match r {
            Ok(t) => output_table(
                aggregate@,
                input@,
                table_ref(current),
                table_ref(multiplicities),
                party,
            ) == Ok::<TableView, AggregateError>(t@),
            Err(e) => output_table(
                aggregate@,
                input@,
                table_ref(current),
                table_ref(multiplicities),
                party,
            ) == Err::<TableView, AggregateError>(e),
        },
{
    let mut cols: Vec<TrackedColumn> = match current {
        Some(t) => copy_cols(&t.cols),
        None => Vec::new(),
    };
    assert(current is None ==> cols_view(cols@) =~= Seq::<ColView>::empty());
    merge_cols(aggregate, &mut cols, input);
    match add_counts(aggregate, &mut cols, multiplicities) {
        Ok(()) => {},
        Err(e) => return Err(e),
    }
    let planned: Option<(Metadata, usize)> = match current {
        Some(t) => match &t.schema {
            Some(s) => Some((s.metadata.copy(), t.log_size)),
            None => None,
        },
        None => None,
    };
    let log_size: usize = match party {
        Party::Prover => match &planned {
            Some((_, n)) => *n,
            None => input.log_size,
        },
        Party::Verifier => match current {
            Some(t) => t.log_size,
            None => input.log_size,
        },
    };
    let metadata: Metadata = match planned {
        Some((m, _)) => m,
        None => input.metadata(),
    };
    Ok(Table::with_metadata(cols, metadata, log_size))
}

/// The optional table behind a reference as a mathematical value.
pub open spec fn table_ref(t: Option<&Table>) -> Option<TableView> {
    match t {
        Some(x) => Some(x@),
        None => None,
    }
}

/// The two parties give an aggregate the same output, wherever the planned
/// table has a schema or there is none planned.
pub proof fn parties_share_the_output(
    a: AggregateView,
    input: TableView,
    current: Option<TableView>,
    multiplicities: Option<TableView>,
)
    requires
        current matches Some(t) ==> t.schema is Some,
    ensures
        output_table(a, input, current, multiplicities, Party::Prover) == output_table(
            a,
            input,
            current,
            multiplicities,
            Party::Verifier,
        ),
{
}

/// A column that an aggregate without groups did not plan itself does not
/// come from the input.
pub proof fn no_groups_pass_nothing_on(
    a: AggregateView,
    current: Seq<ColView>,
    input: Seq<ColView>,
    n: nat,
)
    requires
        a.group_expr.len() == 0,
    ensures
        merged_cols(a, current, input, n) == current,
    decreases n,
{
    if n > 0 {
        no_groups_pass_nothing_on(a, current, input, (n - 1) as nat);
        assert(group_names(a).len() == 0);
    }
}

// ---------------------------------------------------------------------------
// The planned output
// ---------------------------------------------------------------------------

/// The fields of the results: the last of the aggregate's schema, one for
/// each aggregate expression.
pub open spec fn result_fields(a: AggregateView) -> Seq<FieldView> {
    if a.aggr_expr.len() <= a.schema.len() {
        a.schema.skip(a.schema.len() - a.aggr_expr.len())
    } else {
        a.schema
    }
}

/// Whether a column of the output is materialized: the activator and the
/// results are.
pub open spec fn output_materialized(a: AggregateView, name: Seq<char>) -> bool {
    name == ACTIVATOR_COL_NAME@ || first_index(result_fields(a), named(name)) is Some
}

/// The flags of the fields of the output.
pub open spec fn output_flags(a: AggregateView, s: Seq<QFieldView>) -> Seq<(FieldView, bool)>
    decreases s.len(),
{
    if s.len() == 0 {
        Seq::empty()
    } else {
        with_flag(
            output_flags(a, s.drop_last()),
            s.last().field,
            output_materialized(a, s.last().field.name),
        )
    }
}

proof fn lemma_named_from(fields: Seq<Field>, start: int, name: Seq<char>, k: Option<int>)
    requires
        0 <= start <= fields.len(),
        match k {
            Some(i) => start <= i < fields.len() && fields[i]@.name == name,
            None => forall|j: int| start <= j < fields.len() ==> (#[trigger] fields[j])@.name != name,
        },
    ensures
        (first_index(fields_view(fields).skip(start), named(name)) is Some) == (k is Some),
{
    let rest = fields_view(fields).skip(start);
    lemma_first_index(rest, named(name));
    match k {
        Some(i) => {
            assert(rest[i - start] == fields[i]@);
        },
        None => {
            assert forall|j: int| 0 <= j < rest.len() implies !named(name)(#[trigger] rest[j]) by {
                assert(rest[j] == fields[start + j]@);
            }
            lemma_no_first(rest, named(name));
        },
    }
}

/// Whether one of the fields from `start` on has the given name.
fn holds_name_from(fields: &Vec<Field>, start: usize, name: &str) -> (r: bool)
    requires
        start <= fields@.len(),
    ensures
        r == (first_index(fields_view(fields@).skip(start as int), named(name@)) is Some),
{
    let mut i: usize = start;
    while i < fields.len()
        invariant
            start <= i <= fields@.len(),
            forall|j: int| start <= j < i ==> (#[trigger] fields@[j])@.name != name@,
        decreases fields@.len() - i,
    {
        if same_text(fields[i].name.as_str(), name) {
            proof {
                lemma_named_from(fields@, start as int, name@, Some(i as int));
            }
            return true;
        }
        i = i + 1;
    }
    proof {
        lemma_named_from(fields@, start as int, name@, None);
    }
    false
}

impl Aggregate {
    fn result_start(&self) -> (r: usize)
        ensures
            r <= self.schema@.len(),
            result_fields(self@) == fields_view(self.schema@).skip(r as int),
    {
        if self.aggr_expr.len() <= self.schema.len() {
            self.schema.len() - self.aggr_expr.len()
        } else {
            assert(fields_view(self.schema@).skip(0) =~= fields_view(self.schema@));
            0
        }
    }

    fn is_materialized(&self, name: &str) -> (r: bool)
        ensures
            r == output_materialized(self@, name@),
    {
        if same_text(name, ACTIVATOR_COL_NAME) {
            return true;
        }
        let start: usize = self.result_start();
        holds_name_from(&self.schema, start, name)
    }

    /// Which columns of the output are materialized.
    pub fn materialization(&self, schema: &DfSchema) -> (r: Vec<(Field, bool)>)
        ensures
            flags_view(r@) == output_flags(self@, schema@),
    {
        let mut out: Vec<(Field, bool)> = Vec::new();
        let mut i: usize = 0;
        assert(schema@.take(0) =~= Seq::<QFieldView>::empty());
        assert(flags_view(out@) =~= Seq::<(FieldView, bool)>::empty());
        while i < schema.fields.len()
            invariant
                i <= schema.fields@.len(),
                flags_view(out@) == output_flags(self@, schema@.take(i as int)),
            decreases schema.fields@.len() - i,
        {
            proof {
                assert(schema@.take(i + 1).drop_last() =~= schema@.take(i as int));
                assert(schema@.take(i + 1).last() == schema.fields@[i as int]@);
            }
            let field: &Field = &schema.fields[i].field;
            let value: bool = self.is_materialized(field.name.as_str());
            set_flag(&mut out, field.copy(), value);
            i = i + 1;
        }
        assert(schema@.take(schema@.len() as int) =~= schema@);
        out
    }

    /// The fields of the output where only shapes are planned: those of the
    /// input but for its activator, the results, and the activator.
    pub fn output_fields(&self, input: &DfSchema) -> (r: Vec<Field>)
        ensures
            fields_view(r@) == kept(input@, field_but_activator()) + result_fields(self@)
                + seq![activator_field_view()],
            fields_view(r@) == output_shape(self@, input@),
    {
        let ghost f = field_but_activator();
        let mut out: Vec<Field> = Vec::new();
        let mut i: usize = 0;
        assert(fields_view(out@) =~= kept(input@.take(0), f));
        while i < input.fields.len()
            invariant
                i <= input.fields@.len(),
                f == field_but_activator(),
                fields_view(out@) == kept(input@.take(i as int), f),
            decreases input.fields@.len() - i,
        {
            proof {
                lemma_kept_step(input@, f, i as int);
                assert(input@[i as int] == input.fields@[i as int]@);
            }
            if !same_text(input.fields[i].field.name.as_str(), ACTIVATOR_COL_NAME) {
                let ghost before = fields_view(out@);
                let c: Field = input.fields[i].field.copy();
                out.push(c);
                assert(fields_view(out@) =~= before.push(c@));
            }
            i = i + 1;
        }
        assert(input@.take(input@.len() as int) =~= input@);
        let ghost base = fields_view(out@);
        let start: usize = self.result_start();
        let ghost results = result_fields(self@);
        let mut k: usize = start;
        assert(fields_view(out@) =~= base + results.take(0));
        while k < self.schema.len()
            invariant
                start <= k <= self.schema@.len(),
                results == fields_view(self.schema@).skip(start as int),
                fields_view(out@) == base + results.take(k - start),
            decreases self.schema@.len() - k,
        {
            let ghost before = fields_view(out@);
            let c: Field = self.schema[k].copy();
            assert(results[k - start] == c@);
            out.push(c);
            assert(fields_view(out@) =~= before.push(c@));
            assert(fields_view(out@) =~= base + results.take(k + 1 - start));
            k = k + 1;
        }
        assert(results.take(results.len() as int) =~= results);
        let ghost before = fields_view(out@);
        out.push(activator_field());
        assert(fields_view(out@) =~= before + seq![activator_field_view()]);
        out
    }
}

/// The fields of the output where only shapes are planned: those of the input
/// but for its activator, the results, and the activator.
pub open spec fn output_shape(a: AggregateView, input: Seq<QFieldView>) -> Seq<FieldView> {
    kept(input, field_but_activator()) + result_fields(a) + seq![activator_field_view()]
}

/// The field of an entry, where it is not the activator.
pub open spec fn field_but_activator() -> spec_fn(QFieldView) -> Option<FieldView> {
    |q: QFieldView|
        if q.field.name == ACTIVATOR_COL_NAME@ {
            None
        } else {
            Some(q.field)
        }
}

/// The projection of a schema onto the groups of an aggregate: the group
/// expressions and the system columns. The qualifiers of group expressions may
/// be stale.
pub open spec fn projected_groups(s: Seq<QFieldView>, group_expr: Seq<ExprView>) -> Seq<ExprView> {
    with_system_columns(s, resolved_exprs(Resolution::Nearest, s, group_expr))
}

/// The projection that hands the group keys of an aggregate to its gadget.
pub fn group_projection(schema: &DfSchema, group_expr: &Vec<Expr>) -> (r: Vec<Expr>)
    ensures
        exprs_view(r@) == with_system_columns(
            schema@,
            resolved_exprs(Resolution::Nearest, schema@, exprs_view(group_expr@)),
        ),
        exprs_view(r@) == projected_groups(schema@, exprs_view(group_expr@)),
{
    let mut exprs: Vec<Expr> = resolve_exprs(Resolution::Nearest, schema, group_expr);
    append_activator_exprs_if_present(schema, &mut exprs);
    append_row_id_expr_if_present(schema, &mut exprs);
    exprs
}

/// The projections that hand the group keys of the planned input and of the
/// planned output to the gadget, where both are planned.
pub fn group_projections(
    aggregate: &Aggregate,
    input: Option<&DfSchema>,
    output: Option<&DfSchema>,
) -> (r: Option<(Vec<Expr>, Vec<Expr>)>)
    ensures
        match (input, output) {
            (Some(i), Some(o)) => r matches Some((a, b)) && exprs_view(a@) == with_system_columns(
                i@,
                resolved_exprs(Resolution::Nearest, i@, aggregate@.group_expr),
            ) && exprs_view(b@) == with_system_columns(
                o@,
                resolved_exprs(Resolution::Nearest, o@, aggregate@.group_expr),
            ),
            _ => r is None,
        },
        r matches Some((a, b)) ==> {
            &&& input matches Some(i) && exprs_view(a@) == projected_groups(
                i@,
                aggregate@.group_expr,
            )
            &&& output matches Some(o) && exprs_view(b@) == projected_groups(
                o@,
                aggregate@.group_expr,
            )
        },
{
    match (input, output) {
        (Some(i), Some(o)) => Some(
            (
                group_projection(i, &aggregate.group_expr),
                group_projection(o, &aggregate.group_expr),
            ),
        ),
        _ => None,
    }
}

// ---------------------------------------------------------------------------
// The gadget
// ---------------------------------------------------------------------------

/// The planned group keys that the support gadget is handed, where the
/// aggregate has groups and both sides are planned.
pub fn initialize_gadget_plans(
    aggregate: &Aggregate,
    input: Option<HintDF>,
    output: Option<HintDF>,
) -> (r: Option<(HintDF, HintDF)>)
    ensures
        r == (match (input, output) {
            (Some(i), Some(o)) if aggregate@.group_expr.len() > 0 => Some((i, o)),
            _ => None,
        }),
        r matches Some((i, o)) ==> input == Some(i) && output == Some(o),
{
    if !aggregate.has_groups() {
        return None;
    }
    match (input, output) {
        (Some(i), Some(o)) => Some((i, o)),
        _ => None,
    }
}

/// The table of the column that is claimed to be Boolean.
pub open spec fn predicate_table(activator: Poly) -> TableView {
    table_of(
        cols_insert(
            Seq::empty(),
            plain_field(PREDICATE_COL_NAME@, TypeView::Boolean, false),
            activator,
        ),
        activator.log_size,
    )
}

/// What the children of the aggregate gadget are handed.
#[derive(Debug)]
pub struct GadgetWiring {
    /// The keys of the input and of the output, whose supports must agree.
    pub support: Option<(Table, Table)>,
    /// The output activator, which must be Boolean.
    pub boolean: Option<Table>,
}

/// Mathematical counterpart of [`GadgetWiring`].
#[verifier::ext_equal]
pub struct WiringView {
    pub support: Option<(TableView, TableView)>,
    pub boolean: Option<TableView>,
}

impl GadgetWiring {
    /// The wiring as a mathematical value.
    pub open spec fn view(&self) -> WiringView {
        WiringView {
            support: match self.support {
                Some((a, b)) => Some((a@, b@)),
                None => None,
            },
            boolean: table_opt(self.boolean),
        }
    }
}

/// What the children of the aggregate gadget are handed. The support gadget
/// is there with groups; the Boolean gadget also without them, where the
/// output must be a single row.
pub open spec fn gadget_wiring(
    a: AggregateView,
    input: Option<TableView>,
    output: Option<TableView>,
) -> Result<WiringView, AggregateError> {
    let grouped = a.group_expr.len() > 0;
    if !grouped && !needs_single_row(a) {
        Ok(WiringView { support: None, boolean: None })
    } else {
        match output {
            None => Err(AggregateError::MissingOutput),
            Some(o) => if grouped && input is None {
                Err(AggregateError::MissingInput)
            } else {
                match poly_named(o, ACTIVATOR_COL_NAME@) {
                    None => Err(AggregateError::MissingActivator),
                    Some(act) => Ok(
                        WiringView {
                            support: if grouped {
                                Some((input->0, o))
                            } else {
                                None
                            },
                            boolean: Some(predicate_table(act)),
                        },
                    ),
                }
            },
        }
    }
}

/// What the children of the aggregate gadget are handed.
pub fn initialize_gadgets(
    aggregate: &Aggregate,
    input: Option<Table>,
    output: Option<Table>,
) -> (r: Result<GadgetWiring, AggregateError>)
    ensures
        match r {
            Ok(w) => gadget_wiring(aggregate@, table_opt(input), table_opt(output)) == Ok::<
                WiringView,
                AggregateError,
            >(w@),
            Err(e) => gadget_wiring(aggregate@, table_opt(input), table_opt(output)) == Err::<
                WiringView,
                AggregateError,
            >(e),
        },
{
    let grouped: bool = aggregate.has_groups();
    if !grouped && !aggregate.needs_ungrouped_extremum_check() {
        return Ok(GadgetWiring { support: None, boolean: None });
    }
    let out: Table = match output {
        Some(t) => t,
        None => return Err(AggregateError::MissingOutput),
    };
    let activator: Option<Poly> = out.activator();
    let support: Option<(Table, Table)> = if grouped {
        match input {
            Some(t) => Some((t, out)),
            None => return Err(AggregateError::MissingInput),
        }
    } else {
        None
    };
    match activator {
        Some(a) => {
            let mut cols: Vec<TrackedColumn> = Vec::new();
            assert(cols_view(cols@) =~= Seq::<ColView>::empty());
            insert_col(&mut cols, Field::new(PREDICATE_COL_NAME, DataType::Boolean, false), a);
            Ok(GadgetWiring { support, boolean: Some(Table::of(cols, a.log_size)) })
        },
        None => Err(AggregateError::MissingActivator),
    }
}

/// The polynomial whose sum is claimed to be one: the output activator,
/// where the output must be shown to be a single row.
pub open spec fn single_row_claim(a: AggregateView, output: Option<TableView>) -> Result<
    Option<Poly>,
    AggregateError,
> {
    if !needs_single_row(a) {
        Ok(None)
    } else {
        match output {
            None => Err(AggregateError::MissingOutput),
            Some(o) => match poly_named(o, ACTIVATOR_COL_NAME@) {
                Some(p) => Ok(Some(p)),
                None => Err(AggregateError::MissingActivator),
            },
        }
    }
}

/// The polynomial whose sum is claimed to be one. Both parties make the same
/// claim.
pub fn sum_claim_target(aggregate: &Aggregate, output: Option<&Table>) -> (r: Result<
    Option<Poly>,
    AggregateError,
>)
    ensures
        r == single_row_claim(aggregate@, table_ref(output)),
{
    if !aggregate.needs_ungrouped_extremum_check() {
        return Ok(None);
    }
    match output {
        None => Err(AggregateError::MissingOutput),
        Some(o) => match o.activator() {
            Some(p) => Ok(Some(p)),
            None => Err(AggregateError::MissingActivator),
        },
    }
}

/// The claim about the sum and the Boolean gadget speak of the same
/// polynomial: whatever the gadget is handed, an aggregate that needs a
/// single row has its output activator claimed to be Boolean and to sum to
/// one.
pub proof fn single_row_claims_meet(
    a: AggregateView,
    input: Option<TableView>,
    output: TableView,
    act: Poly,
)
    requires
        needs_single_row(a),
        poly_named(output, ACTIVATOR_COL_NAME@) == Some(act),
    ensures
        single_row_claim(a, Some(output)) == Ok::<Option<Poly>, AggregateError>(Some(act)),
        gadget_wiring(a, input, Some(output)) == Ok::<WiringView, AggregateError>(
            WiringView { support: None, boolean: Some(predicate_table(act)) },
        ),
{
}

/// An activator over a field that is Boolean and sums to one has exactly one
/// active row, as long as the field is larger than the table: neither no row,
/// nor two, nor values that only cancel to one can pass.
pub proof fn one_row_is_active(activator: Seq<int>, p: int)
    requires
        field_modulus(p),
        residues(activator, p),
        activator.len() < p,
        boolean_claim(activator, p),
        sum_claim(activator, 1, p),
    ensures
        is_boolean(activator),
        ones(activator) == 1,
{
    boolean_claim_is_boolean(activator, p);
    sum_claim_counts(activator, 1, p);
}

/// The claims hold of every activator with exactly one active row.
pub proof fn one_active_row_passes(activator: Seq<int>, p: int)
    requires
        p > 1,
        is_boolean(activator),
        ones(activator) == 1,
    ensures
        boolean_claim(activator, p),
        sum_claim(activator, 1, p),
{
    boolean_values_pass(activator, p);
    boolean_sum_counts(activator);
    vstd::arithmetic::div_mod::lemma_small_mod(1, p as nat);
}

// ---------------------------------------------------------------------------
// Whose columns an aggregate hands on
// ---------------------------------------------------------------------------

proof fn lemma_group_segments(fields: Seq<FieldView>, c: ColumnView)
    ensures
        ({
            let found = group_segments(fields, c.name, qualifier_text(c));
            &&& forall|k: int|
                0 <= k < found.len() ==> 0 <= #[trigger] found[k] < fields.len() && segment_of(
                    fields[found[k]].name,
                    c.name,
                )
            &&& forall|j: int|
                0 <= j < fields.len() && segment_of((#[trigger] fields[j]).name, c.name) && (
                qualifier_text(c) is None || qualifier_of(fields[j]) == qualifier_text(c))
                    ==> found.contains(j)
        }),
{
    let q = qualifier_text(c);
    let found = group_segments(fields, c.name, q);
    let p = if q is Some && first_index(fields, named_under(c.name, q)) is Some {
        is_segment_under(c.name, q)
    } else {
        is_segment(c.name)
    };
    assert(found == indices_where(fields, p));
    lemma_indices_where(fields, p);
    assert forall|k: int| 0 <= k < found.len() implies 0 <= #[trigger] found[k] < fields.len()
        && segment_of(fields[found[k]].name, c.name) by {
        lemma_indices_hold(fields, p, k);
    }
    assert forall|j: int|
        0 <= j < fields.len() && segment_of((#[trigger] fields[j]).name, c.name) && (q is None
            || qualifier_of(fields[j]) == q) implies found.contains(j) by {
        assert(p(fields[j]));
        lemma_index_found(fields, p, j);
    }
}

/// Whether a name is a segment of one of the group columns.
pub open spec fn names_a_group(group_expr: Seq<ExprView>, name: Seq<char>) -> bool {
    exists|g: int|
        0 <= g < group_expr.len() && ((#[trigger] group_expr[g]) matches ExprView::Column(c)
            && segment_of(name, c.name))
}

proof fn lemma_group_positions(fields: Seq<FieldView>, group_expr: Seq<ExprView>)
    requires
        group_positions(fields, group_expr) is Ok,
    ensures
        ({
            let found = group_positions(fields, group_expr)->Ok_0;
            &&& forall|k: int|
                0 <= k < found.len() ==> 0 <= #[trigger] found[k] < fields.len() && names_a_group(
                    group_expr,
                    fields[found[k]].name,
                )
            &&& forall|g: int, j: int|
                0 <= g < group_expr.len() && 0 <= j < fields.len() && ((#[trigger] group_expr[g])
                    matches ExprView::Column(c) && segment_of(
                    (#[trigger] fields[j]).name,
                    c.name,
                ) && (qualifier_text(c) is None || qualifier_of(fields[j]) == qualifier_text(c)))
                    ==> found.contains(j)
            &&& forall|g: int| 0 <= g < group_expr.len() ==> (#[trigger] group_expr[g]) is Column
        }),
    decreases group_expr.len(),
{
    if group_expr.len() > 0 {
        let rest = group_expr.drop_last();
        lemma_group_positions(fields, rest);
        let before = group_positions(fields, rest)->Ok_0;
        let c = group_expr.last()->Column_0;
        let own = group_segments(fields, c.name, qualifier_text(c));
        lemma_group_segments(fields, c);
        let found = group_positions(fields, group_expr)->Ok_0;
        assert(found == before + own);
        assert forall|k: int| 0 <= k < found.len() implies 0 <= #[trigger] found[k] < fields.len()
            && names_a_group(group_expr, fields[found[k]].name) by {
            if k < before.len() {
                assert(found[k] == before[k]);
                let g = choose|g: int|
                    0 <= g < rest.len() && ((#[trigger] rest[g]) matches ExprView::Column(d)
                        && segment_of(fields[before[k]].name, d.name));
                assert(group_expr[g] == rest[g]);
            } else {
                assert(found[k] == own[k - before.len()]);
                assert(group_expr[group_expr.len() - 1] == ExprView::Column(c));
            }
        }
        assert forall|g: int, j: int|
            0 <= g < group_expr.len() && 0 <= j < fields.len() && ((#[trigger] group_expr[g])
                matches ExprView::Column(d) && segment_of((#[trigger] fields[j]).name, d.name) && (
            qualifier_text(d) is None || qualifier_of(fields[j]) == qualifier_text(
                d,
            ))) implies found.contains(j) by {
            if g < rest.len() {
                assert(rest[g] == group_expr[g]);
                let k = choose|k: int| 0 <= k < before.len() && before[k] == j;
                assert(found[k] == j);
            } else {
                let k = choose|k: int| 0 <= k < own.len() && own[k] == j;
                assert(found[before.len() + k] == j);
            }
        }
        assert forall|g: int| 0 <= g < group_expr.len() implies (
        #[trigger] group_expr[g]) is Column by {
            if g < rest.len() {
                assert(rest[g] == group_expr[g]);
            }
        }
    }
}

/// Whether a table is made of the group keys of another: over its rows, of its
/// own columns, the segments of the group columns and the system columns.
pub open spec fn holds_the_groups_of(
    keys: TableView,
    t: TableView,
    group_expr: Seq<ExprView>,
) -> bool {
    &&& keys.log_size == t.log_size
    &&& forall|x: int| 0 <= x < keys.cols.len() ==> t.cols.contains(#[trigger] keys.cols[x])
    &&& forall|x: int|
        0 <= x < keys.cols.len() ==> is_system_name((#[trigger] keys.cols[x]).field.name)
            || names_a_group(group_expr, keys.cols[x].field.name)
    &&& forall|g: int, j: int|
        0 <= g < group_expr.len() && 0 <= j < t.cols.len() && ((#[trigger] group_expr[g])
            matches ExprView::Column(c) && segment_of((#[trigger] t.cols[j]).field.name, c.name) && (
        qualifier_text(c) is None || qualifier_of(t.cols[j].field) == qualifier_text(c)))
            ==> holds_field(keys.cols, t.cols[j].field)
    &&& forall|j: int|
        0 <= j < t.cols.len() && (#[trigger] t.cols[j]).field.name == "__activator__"@
            ==> holds_field(keys.cols, t.cols[j].field)
}

/// Whether a table is the one group of another: the constant key and the
/// table's own activator.
pub open spec fn holds_the_one_group_of(keys: TableView, t: TableView) -> bool {
    &&& keys.log_size == t.log_size
    &&& t.cols.len() > 0
    &&& keys.cols.len() > 0
    &&& keys.cols[0].field.name == "__agg_group_key__"@
    &&& keys.cols[0].poly.id == PolyId::One
    &&& keys.cols[0].poly.log_size == t.cols[0].poly.log_size
    &&& keys.cols[0].poly.tracker == t.cols[0].poly.tracker
    &&& forall|x: int|
        1 <= x < keys.cols.len() ==> (#[trigger] keys.cols[x]).field.name == "__activator__"@
            && poly_named(t, "__activator__"@) == Some(keys.cols[x].poly)
    &&& keys.cols.len() == 2 <==> poly_named(t, "__activator__"@) is Some
    &&& keys.cols.len() <= 2
}

proof fn lemma_group_keys(t: TableView, group_expr: Seq<ExprView>)
    requires
        group_keys(t, group_expr) is Ok,
    ensures
        group_expr.len() > 0 ==> holds_the_groups_of(
            group_keys(t, group_expr)->Ok_0,
            t,
            group_expr,
        ),
        group_expr.len() == 0 ==> holds_the_one_group_of(group_keys(t, group_expr)->Ok_0, t),
{
    let keys = group_keys(t, group_expr)->Ok_0;
    if group_expr.len() == 0 {
        reveal_strlit("__agg_group_key__");
        reveal_strlit("__activator__");
        assert(AGG_GROUP_KEY_COL_NAME@.len() != ACTIVATOR_COL_NAME@.len());
        let first = t.cols[0].poly;
        let f = plain_field(AGG_GROUP_KEY_COL_NAME@, TypeView::Boolean, false);
        let p = Poly { id: PolyId::One, tracker: first.tracker, log_size: first.log_size };
        lemma_field_index(Seq::<ColView>::empty(), f);
        let key = cols_insert(Seq::<ColView>::empty(), f, p);
        assert(key.len() == 1 && key[0] == ColView { field: f, poly: p });
        lemma_field_index(key, activator_field_view());
    } else {
        let fields = col_fields(t.cols);
        let found = group_positions(fields, group_expr)->Ok_0;
        lemma_group_positions(fields, group_expr);
        let all = with_activator_at(t.cols, found);
        lemma_name_index(t.cols, ACTIVATOR_COL_NAME@);
        assert forall|i: int| 0 <= i < all.len() implies 0 <= #[trigger] all[i] < t.cols.len() && (
        is_system_name(t.cols[all[i]].field.name) || names_a_group(
            group_expr,
            t.cols[all[i]].field.name,
        )) by {
            if i < found.len() {
                assert(all[i] == found[i]);
                assert(fields[found[i]] == t.cols[found[i]].field);
            }
        }
        subtables_hold_the_selection_and_the_system_columns(t, all);
        assert forall|x: int| 0 <= x < keys.cols.len() implies is_system_name(
            (#[trigger] keys.cols[x]).field.name,
        ) || names_a_group(group_expr, keys.cols[x].field.name) by {
            if !is_system_name(keys.cols[x].field.name) {
                let k = choose|k: int|
                    0 <= k < all.len() && t.cols[#[trigger] all[k]].field == keys.cols[x].field;
                assert(0 <= all[k] < t.cols.len());
            }
        }
        assert forall|g: int, j: int|
            0 <= g < group_expr.len() && 0 <= j < t.cols.len() && ((#[trigger] group_expr[g])
                matches ExprView::Column(c) && segment_of((#[trigger] t.cols[j]).field.name, c.name)
                && (qualifier_text(c) is None || qualifier_of(t.cols[j].field)
                == qualifier_text(c))) implies holds_field(keys.cols, t.cols[j].field) by {
            assert(fields[j] == t.cols[j].field);
            let k = choose|k: int| 0 <= k < found.len() && found[k] == j;
            assert(all[k] == j);
        }
    }
}

/// What is handed over as the group keys of the input are columns of the input,
/// and what is handed over as those of the output are columns of the output,
/// each over the rows of its own table.
pub proof fn group_keys_come_from_their_own_table(
    a: AggregateView,
    input: TableView,
    output: TableView,
)
    requires
        gadget_tables(a, input, output) is Ok,
    ensures
        ({
            let (i, o) = gadget_tables(a, input, output)->Ok_0;
            &&& a.group_expr.len() > 0 ==> holds_the_groups_of(i, input, a.group_expr)
                && holds_the_groups_of(o, output, a.group_expr)
            &&& a.group_expr.len() == 0 ==> holds_the_one_group_of(i, input)
                && holds_the_one_group_of(o, output)
        }),
{
    lemma_group_keys(input, a.group_expr);
    lemma_group_keys(output, a.group_expr);
}

/// The gadget of an aggregate compares the keys of the input with those of the
/// output exactly when there are groups, and has the output's own activator
/// shown to be Boolean.
pub proof fn the_gadget_gets_the_keys_of_both_sides(
    a: AggregateView,
    input: Option<TableView>,
    output: Option<TableView>,
)
    requires
        gadget_wiring(a, input, output) is Ok,
    ensures
        ({
            let w = gadget_wiring(a, input, output)->Ok_0;
            &&& w.support is Some <==> a.group_expr.len() > 0
            &&& w.support matches Some((x, y)) ==> input == Some(x) && output == Some(y)
            &&& w.boolean is Some <==> a.group_expr.len() > 0 || needs_single_row(a)
            &&& w.boolean matches Some(b) ==> b.cols.len() == 1 && b.cols[0].field.name
                == "predicate"@ && b.cols[0].field.data_type == TypeView::Boolean && (
            output matches Some(o) && poly_named(o, "__activator__"@) == Some(b.cols[0].poly))
        }),
{
    let w = gadget_wiring(a, input, output)->Ok_0;
    if w.boolean is Some {
        let act = poly_named(output->0, ACTIVATOR_COL_NAME@)->0;
        let f = plain_field(PREDICATE_COL_NAME@, TypeView::Boolean, false);
        lemma_field_index(Seq::<ColView>::empty(), f);
        assert(cols_insert(Seq::<ColView>::empty(), f, act).len() == 1);
    }
}

/// An expression without the aliases around it.
pub open spec fn unaliased(e: ExprView) -> ExprView
    decreases e,
{
    match e {
        ExprView::Alias { expr, .. } => unaliased(*expr),
        _ => e,
    }
}

/// Extrema are the calls of `max` and `min`, counts those of `count`, whatever
/// aliases stand around them.
pub proof fn functions_are_known_by_their_name(e: ExprView)
    ensures
        is_extremum(e) <==> (unaliased(e) is AggregateFunction && (
        unaliased(e)->AggregateFunction_func == "max"@ || unaliased(e)->AggregateFunction_func
            == "min"@)),
        is_count(e) <==> (unaliased(e) is AggregateFunction
            && unaliased(e)->AggregateFunction_func == "count"@),
    decreases e,
{
    match e {
        ExprView::Alias { expr, .. } => functions_are_known_by_their_name(*expr),
        _ => {},
    }
}

/// A single row is asked for exactly where an extremum is taken of all rows at
/// once.
pub proof fn only_ungrouped_extrema_need_a_single_row(a: AggregateView, output: Option<TableView>)
    ensures
        needs_single_row(a) <==> a.group_expr.len() == 0 && exists|i: int|
            0 <= i < a.aggr_expr.len() && is_extremum((#[trigger] a.aggr_expr[i]).expr),
        single_row_claim(a, output) matches Ok(Some(p)) ==> needs_single_row(a) && (output
            matches Some(o) && exists|j: int|
            0 <= j < o.cols.len() && (#[trigger] o.cols[j]).field.name == "__activator__"@
                && o.cols[j].poly == p),
        single_row_claim(a, output) == Ok::<Option<Poly>, AggregateError>(None)
            <==> !needs_single_row(a),
{
    if output is Some {
        lemma_name_index(output->0.cols, ACTIVATOR_COL_NAME@);
    }
}

/// The single field of a name has that name; it is the only one under the
/// qualifier, or the only one of its name.
pub proof fn single_fields_have_their_name(
    fields: Seq<FieldView>,
    name: Seq<char>,
    qualifier: Option<Seq<char>>,
)
    ensures
        single_field(fields, name, qualifier) matches Some(i) ==> 0 <= i < fields.len()
            && fields[i].name == name && ((qualifier_of(fields[i]) == qualifier && forall|j: int|
            0 <= j < fields.len() && j != i && (#[trigger] fields[j]).name == name ==> qualifier_of(
                fields[j],
            ) != qualifier) || forall|j: int|
            0 <= j < fields.len() && j != i ==> (#[trigger] fields[j]).name != name),
{
    let u = named_under(name, qualifier);
    let n = named(name);
    lemma_indices_where(fields, u);
    lemma_indices_where(fields, n);
    let under = indices_where(fields, u);
    let all = indices_where(fields, n);
    if under.len() == 1 {
        lemma_indices_hold(fields, u, 0);
        assert forall|j: int|
            0 <= j < fields.len() && j != under[0] && (#[trigger] fields[j]).name
                == name implies qualifier_of(fields[j]) != qualifier by {
            if u(fields[j]) {
                lemma_index_found(fields, u, j);
            }
        }
    } else if under.len() == 0 && all.len() == 1 {
        lemma_indices_hold(fields, n, 0);
        assert forall|j: int| 0 <= j < fields.len() && j != all[0] implies (
        #[trigger] fields[j]).name != name by {
            if n(fields[j]) {
                lemma_index_found(fields, n, j);
            }
        }
    }
}

/// An aggregate function is handed the output column of its own name; only a
/// count, whose result comes from the multiplicities, is handed none.
pub proof fn functions_get_the_column_of_their_name(
    t: TableView,
    counts: Seq<Seq<char>>,
    e: NamedView,
)
    requires
        function_column(t, counts, e) is Ok,
    ensures
        match function_column(t, counts, e)->Ok_0 {
            None => counts.contains(e.schema_name),
            Some(c) => !counts.contains(e.schema_name) && c.log_size == t.log_size && (forall|
                x: int,
            |
                0 <= x < c.cols.len() ==> t.cols.contains(#[trigger] c.cols[x]) && (is_system_name(
                    c.cols[x].field.name,
                ) || c.cols[x].field.name == e.schema_name)) && exists|x: int|
                0 <= x < c.cols.len() && (#[trigger] c.cols[x]).field.name == e.schema_name,
        },
{
    let fields = col_fields(t.cols);
    if !counts.contains(e.schema_name) {
        single_fields_have_their_name(fields, e.schema_name, None);
        let i = single_field(fields, e.schema_name, None)->0;
        assert(fields[i] == t.cols[i].field);
        let at = seq![i];
        subtables_hold_the_selection_and_the_system_columns(t, at);
        let c = subtable(t, at);
        assert(holds_field(c.cols, t.cols[at[0]].field));
        let x = choose|x: int| 0 <= x < c.cols.len() && (#[trigger] c.cols[x]).field == t.cols[i].field;
        assert(c.cols[x].field.name == e.schema_name);
        assert forall|x: int| 0 <= x < c.cols.len() implies t.cols.contains(#[trigger] c.cols[x])
            && (is_system_name(c.cols[x].field.name) || c.cols[x].field.name == e.schema_name) by {
            if !is_system_name(c.cols[x].field.name) {
                let k = choose|k: int|
                    0 <= k < at.len() && t.cols[#[trigger] at[k]].field == c.cols[x].field;
                assert(at[k] == i);
            }
        }
    }
}

/// Where an output column may come from: what was planned, a group column of the
/// input that is no result, or the multiplicities under the name of a count.
pub open spec fn has_a_source(
    c: ColView,
    a: AggregateView,
    current: Option<TableView>,
    input: TableView,
    multiplicities: Option<TableView>,
) -> bool {
    ||| (current matches Some(t) && t.cols.contains(c))
    ||| (input.cols.contains(c) && passed_on(a, c.field.name))
    ||| (count_names(a).contains(c.field.name) && (multiplicities matches Some(m) && exists|k: int|
        0 <= k < m.cols.len() && (#[trigger] m.cols[k]).poly == c.poly && !is_system_name(
            m.cols[k].field.name,
        )))
}

proof fn lemma_merged_from(a: AggregateView, current: Seq<ColView>, input: Seq<ColView>, n: nat)
    requires
        n <= input.len(),
    ensures
        forall|i: int|
            0 <= i < merged_cols(a, current, input, n).len() ==> current.contains(
                #[trigger] merged_cols(a, current, input, n)[i],
            ) || (input.contains(merged_cols(a, current, input, n)[i]) && passed_on(
                a,
                merged_cols(a, current, input, n)[i].field.name,
            )),
    decreases n,
{
    if n > 0 {
        lemma_merged_from(a, current, input, (n - 1) as nat);
        let before = merged_cols(a, current, input, (n - 1) as nat);
        let now = merged_cols(a, current, input, n);
        let c = input[n - 1];
        assert(input.contains(c));
        lemma_name_index(before, c.field.name);
        let rest = match name_index(before, c.field.name) {
            Some(i) => swap_removed(before, i),
            None => before,
        };
        lemma_field_index(rest, c.field);
        assert forall|i: int| 0 <= i < rest.len() implies before.contains(#[trigger] rest[i]) by {
            if rest[i] == before[i] {
            } else {
                assert(rest[i] == before[before.len() - 1]);
            }
        }
        assert forall|i: int| 0 <= i < now.len() implies current.contains(#[trigger] now[i]) || (
        input.contains(now[i]) && passed_on(a, now[i].field.name)) by {
            if passed_on(a, c.field.name) && now[i] != c {
                assert(now[i] == rest[i]);
                let k = choose|k: int| 0 <= k < before.len() && before[k] == rest[i];
                assert(before[k] == now[i]);
            }
        }
    } else {
        assert forall|i: int| 0 <= i < current.len() implies current.contains(
            #[trigger] merged_cols(a, current, input, n)[i],
        ) by {
            assert(merged_cols(a, current, input, n)[i] == current[i]);
        }
    }
}

proof fn lemma_counts_from(cols: Seq<ColView>, names: Seq<Seq<char>>, m: ColView, i: int)
    requires
        0 <= i < with_counts(cols, names, m).len(),
    ensures
        cols.contains(with_counts(cols, names, m)[i]) || (names.contains(
            with_counts(cols, names, m)[i].field.name,
        ) && with_counts(cols, names, m)[i].poly == m.poly),
    decreases names.len(),
{
    if names.len() > 0 {
        let rest = names.drop_last();
        let before = with_counts(cols, rest, m);
        let now = with_counts(cols, names, m);
        let f = plain_field(names.last(), m.field.data_type, m.field.nullable);
        lemma_field_index(before, f);
        if now[i] == (ColView { field: f, poly: m.poly }) {
            assert(names[names.len() - 1] == now[i].field.name);
        } else {
            assert(now[i] == before[i]);
            lemma_counts_from(cols, rest, m, i);
            if rest.contains(now[i].field.name) {
                let k = choose|k: int| 0 <= k < rest.len() && rest[k] == now[i].field.name;
                assert(names[k] == now[i].field.name);
            }
        }
    }
}

proof fn lemma_missing_counts(names: Seq<Seq<char>>, cols: Seq<ColView>)
    ensures
        forall|k: int|
            0 <= k < kept(names, missing_names(cols)).len() ==> names.contains(
                #[trigger] kept(names, missing_names(cols))[k],
            ),
    decreases names.len(),
{
    if names.len() > 0 {
        let rest = names.drop_last();
        lemma_missing_counts(rest, cols);
        let before = kept(rest, missing_names(cols));
        let now = kept(names, missing_names(cols));
        assert forall|k: int| 0 <= k < now.len() implies names.contains(#[trigger] now[k]) by {
            if k < before.len() {
                assert(now[k] == before[k]);
                let j = choose|j: int| 0 <= j < rest.len() && rest[j] == before[k];
                assert(names[j] == now[k]);
            } else {
                assert(names[names.len() - 1] == now[k]);
            }
        }
    }
}

/// Every column of the output of an aggregate has a source: it was planned for
/// the output, it is a group column of the input, or it counts the rows of the
/// groups. In particular the activator of the output never comes from the input.
pub proof fn output_columns_have_a_source(
    a: AggregateView,
    input: TableView,
    current: Option<TableView>,
    multiplicities: Option<TableView>,
    party: Party,
    i: int,
)
    requires
        output_table(a, input, current, multiplicities, party) is Ok,
        0 <= i < output_table(a, input, current, multiplicities, party)->Ok_0.cols.len(),
    ensures
        has_a_source(
            output_table(a, input, current, multiplicities, party)->Ok_0.cols[i],
            a,
            current,
            input,
            multiplicities,
        ),
        !passed_on(a, "__activator__"@),
        forall|name: Seq<char>| #[trigger]
            passed_on(a, name) ==> names_a_group(a.group_expr, name),
{
    let planned = match current {
        Some(t) => t.cols,
        None => Seq::empty(),
    };
    let merged = merged_cols(a, planned, input.cols, input.cols.len());
    lemma_merged_from(a, planned, input.cols, input.cols.len());
    let t = output_table(a, input, current, multiplicities, party)->Ok_0;
    let missing = kept(count_names(a), missing_names(merged));
    lemma_missing_counts(count_names(a), merged);
    if multiplicities is Some && missing.len() > 0 {
        let m = multiplicities->0;
        let data = indices_where(m.cols, is_data());
        lemma_indices_where(m.cols, is_data());
        let c = m.cols[data[0]];
        assert(is_data()(c));
        lemma_counts_from(merged, missing, c, i);
        if merged.contains(t.cols[i]) {
            let k = choose|k: int| 0 <= k < merged.len() && merged[k] == t.cols[i];
            assert(merged[k] == t.cols[i]);
        } else {
            let k = choose|k: int| 0 <= k < missing.len() && missing[k] == t.cols[i].field.name;
            assert(count_names(a).contains(missing[k]));
        }
    } else {
        assert(t.cols[i] == merged[i]);
    }
    assert forall|name: Seq<char>| #[trigger] passed_on(a, name) implies names_a_group(
        a.group_expr,
        name,
    ) by {
        let k = choose|k: int| 0 <= k < group_names(a).len() && segment_of(name, #[trigger] group_names(a)[k]);
        lemma_group_names(a.group_expr, k);
    }
}

proof fn lemma_group_names(group_expr: Seq<ExprView>, k: int)
    requires
        0 <= k < kept(group_expr, name_if_column()).len(),
    ensures
        exists|g: int|
            0 <= g < group_expr.len() && ((#[trigger] group_expr[g]) matches ExprView::Column(c)
                && c.name == kept(group_expr, name_if_column())[k]),
    decreases group_expr.len(),
{
    if group_expr.len() > 0 {
        let rest = group_expr.drop_last();
        let before = kept(rest, name_if_column());
        if k < before.len() {
            lemma_group_names(rest, k);
            let g = choose|g: int|
                0 <= g < rest.len() && ((#[trigger] rest[g]) matches ExprView::Column(c) && c.name
                    == before[k]);
            assert(group_expr[g] == rest[g]);
        } else {
            assert(group_expr[group_expr.len() - 1] is Column);
        }
    }
}

/// The planned output has its activator and its results materialized, and
/// nothing else: the results are the fields at the end of the schema, one for
/// each aggregate expression.
pub proof fn results_and_activators_are_materialized(a: AggregateView, name: Seq<char>)
    requires
        a.aggr_expr.len() <= a.schema.len(),
    ensures
        output_materialized(a, name) <==> name == "__activator__"@ || exists|k: int|
            a.schema.len() - a.aggr_expr.len() <= k < a.schema.len() && (
            #[trigger] a.schema[k]).name == name,
{
    let fields = result_fields(a);
    let start = a.schema.len() - a.aggr_expr.len();
    let p = named(name);
    lemma_first_index(fields, p);
    match first_index(fields, p) {
        Some(i) => {
            assert(p(fields[i]));
            assert(a.schema[start + i].name == name);
        },
        None => {
            assert forall|k: int| start <= k < a.schema.len() implies (
            #[trigger] a.schema[k]).name != name by {
                assert(fields[k - start] == a.schema[k]);
                assert(!p(fields[k - start]));
            }
        },
    }
}

/// Whether a name is the result of an aggregate expression or the lengths of
/// its strings.
pub open spec fn names_a_result(a: AggregateView, name: Seq<char>) -> bool {
    exists|k: int|
        0 <= k < a.aggr_expr.len() && (name == (#[trigger] a.aggr_expr[k]).schema_name || name
            == a.aggr_expr[k].schema_name + "__length"@)
}

/// The columns that an aggregate passes on from its input are those of its
/// groups: all of them but the activator and what it computes itself.
pub proof fn all_groups_but_results_are_passed_on(a: AggregateView, name: Seq<char>)
    ensures
        passed_on(a, name) <==> name != "__activator__"@ && !names_a_result(a, name) && exists|
            g: int,
        |
            0 <= g < a.group_expr.len() && ((#[trigger] a.group_expr[g]) matches ExprView::Column(c)
                && (name == c.name || name == c.name + "__length"@)),
{
    let results = aggregate_names(a);
    let groups = group_names(a);
    if names_a_result(a, name) {
        let k = choose|k: int|
            0 <= k < a.aggr_expr.len() && (name == (#[trigger] a.aggr_expr[k]).schema_name || name
                == a.aggr_expr[k].schema_name + "__length"@);
        let i = no_kept_item_is_lost(a.aggr_expr, name_of(), k);
        assert(segment_of(name, results[i]));
    }
    if segment_of_any(name, results) {
        let i = choose|i: int| 0 <= i < results.len() && segment_of(name, #[trigger] results[i]);
        let k = kept_items_come_from_the_list(a.aggr_expr, name_of(), i);
        assert(a.aggr_expr[k].schema_name == results[i]);
        assert(names_a_result(a, name));
    }
    if segment_of_any(name, groups) {
        let i = choose|i: int| 0 <= i < groups.len() && segment_of(name, #[trigger] groups[i]);
        let g = kept_items_come_from_the_list(a.group_expr, name_if_column(), i);
        assert(a.group_expr[g] is Column);
    }
    if exists|g: int|
        0 <= g < a.group_expr.len() && ((#[trigger] a.group_expr[g]) matches ExprView::Column(c)
            && (name == c.name || name == c.name + "__length"@)) {
        let g = choose|g: int|
            0 <= g < a.group_expr.len() && ((#[trigger] a.group_expr[g]) matches ExprView::Column(c)
                && (name == c.name || name == c.name + "__length"@));
        let i = no_kept_item_is_lost(a.group_expr, name_if_column(), g);
        assert(segment_of(name, groups[i]));
    }
}

proof fn lemma_insert_keeps(cols: Seq<ColView>, f: FieldView, p: Poly, c: ColView)
    requires
        cols.contains(c),
        c.field != f,
    ensures
        cols_insert(cols, f, p).contains(c),
{
    lemma_field_index(cols, f);
    let i = choose|i: int| 0 <= i < cols.len() && cols[i] == c;
    assert(cols_insert(cols, f, p)[i] == c);
}

proof fn lemma_insert_holds(cols: Seq<ColView>, c: ColView)
    ensures
        cols_insert(cols, c.field, c.poly).contains(c),
{
    lemma_field_index(cols, c.field);
    match field_index(cols, c.field) {
        Some(i) => {
            assert(cols_insert(cols, c.field, c.poly)[i] == c);
        },
        None => {
            assert(cols_insert(cols, c.field, c.poly)[cols.len() as int] == c);
        },
    }
}

proof fn lemma_passing_keeps(cols: Seq<ColView>, d: ColView, c: ColView)
    requires
        cols.contains(c),
        c.field.name != d.field.name,
    ensures
        with_passed(cols, d).contains(c),
{
    lemma_name_index(cols, d.field.name);
    match name_index(cols, d.field.name) {
        Some(i) => {
            let rest = swap_removed(cols, i);
            let k = choose|k: int| 0 <= k < cols.len() && cols[k] == c;
            assert(k != i);
            if k == cols.len() - 1 {
                assert(rest[i] == c);
            } else {
                assert(rest[k] == c);
            }
            lemma_insert_keeps(rest, d.field, d.poly, c);
        },
        None => {
            lemma_insert_keeps(cols, d.field, d.poly, c);
        },
    }
}

proof fn lemma_passed_is_there(
    a: AggregateView,
    current: Seq<ColView>,
    input: Seq<ColView>,
    n: nat,
    j: int,
)
    requires
        0 <= j < n <= input.len(),
        passed_on(a, input[j].field.name),
        forall|k: int| j < k < n ==> (#[trigger] input[k]).field.name != input[j].field.name,
    ensures
        merged_cols(a, current, input, n).contains(input[j]),
    decreases n,
{
    let before = merged_cols(a, current, input, (n - 1) as nat);
    if j == n - 1 {
        let c = input[j];
        let rest = match name_index(before, c.field.name) {
            Some(i) => swap_removed(before, i),
            None => before,
        };
        lemma_insert_holds(rest, c);
    } else {
        lemma_passed_is_there(a, current, input, (n - 1) as nat, j);
        assert(input[n - 1].field.name != input[j].field.name);
        if passed_on(a, input[n - 1].field.name) {
            lemma_passing_keeps(before, input[n - 1], input[j]);
        }
    }
}

proof fn lemma_counting_keeps(cols: Seq<ColView>, names: Seq<Seq<char>>, m: ColView, c: ColView)
    requires
        cols.contains(c),
        !names.contains(c.field.name),
    ensures
        with_counts(cols, names, m).contains(c),
    decreases names.len(),
{
    if names.len() > 0 {
        let t = names.drop_last();
        if t.contains(c.field.name) {
            let k = choose|k: int| 0 <= k < t.len() && t[k] == c.field.name;
            assert(names[k] == c.field.name);
        }
        lemma_counting_keeps(cols, t, m, c);
        assert(names[names.len() - 1] == names.last());
        lemma_insert_keeps(
            with_counts(cols, t, m),
            plain_field(names.last(), m.field.data_type, m.field.nullable),
            m.poly,
            c,
        );
    }
}

/// No group is lost: a group column of the input, the last of its name, is a
/// column of the output, polynomial for polynomial.
pub proof fn no_group_is_lost(
    a: AggregateView,
    input: TableView,
    current: Option<TableView>,
    multiplicities: Option<TableView>,
    party: Party,
    j: int,
)
    requires
        output_table(a, input, current, multiplicities, party) is Ok,
        0 <= j < input.cols.len(),
        passed_on(a, input.cols[j].field.name),
        forall|k: int|
            j < k < input.cols.len() ==> (#[trigger] input.cols[k]).field.name
                != input.cols[j].field.name,
    ensures
        output_table(a, input, current, multiplicities, party)->Ok_0.cols.contains(input.cols[j]),
{
    let planned = match current {
        Some(t) => t.cols,
        None => Seq::empty(),
    };
    let merged = merged_cols(a, planned, input.cols, input.cols.len());
    lemma_passed_is_there(a, planned, input.cols, input.cols.len(), j);
    let missing = kept(count_names(a), missing_names(merged));
    if multiplicities is Some && missing.len() > 0 {
        let m = multiplicities->0;
        let data = indices_where(m.cols, is_data());
        let c = input.cols[j];
        if missing.contains(c.field.name) {
            let k = choose|k: int| 0 <= k < missing.len() && missing[k] == c.field.name;
            let i = kept_items_come_from_the_list(count_names(a), missing_names(merged), k);
            lemma_name_index(merged, c.field.name);
            let x = choose|x: int| 0 <= x < merged.len() && merged[x] == c;
            assert(merged[x].field.name == c.field.name);
            assert(false);
        }
        lemma_counting_keeps(merged, missing, m.cols[data[0]], c);
    }
}

/// Counts that the output has already stay as they are, whatever the
/// multiplicities say.
pub proof fn planned_counts_stay(
    a: AggregateView,
    cols: Seq<ColView>,
    multiplicities: Option<TableView>,
)
    requires
        forall|k: int|
            0 <= k < a.aggr_expr.len() && is_count((#[trigger] a.aggr_expr[k]).expr) ==> exists|
                i: int,
            |
                0 <= i < cols.len() && (#[trigger] cols[i]).field.name
                    == a.aggr_expr[k].schema_name,
    ensures
        counted_cols(a, cols, multiplicities) == Ok::<Seq<ColView>, AggregateError>(cols),
{
    let missing = kept(count_names(a), missing_names(cols));
    if missing.len() > 0 {
        let i = kept_items_come_from_the_list(count_names(a), missing_names(cols), 0);
        let k = kept_items_come_from_the_list(a.aggr_expr, name_if_count(), i);
        lemma_name_index(cols, a.aggr_expr[k].schema_name);
        assert(is_count(a.aggr_expr[k].expr));
        let x = choose|x: int|
            0 <= x < cols.len() && (#[trigger] cols[x]).field.name == a.aggr_expr[k].schema_name;
        assert(false);
    }
}

/// A count that the output lacks is the multiplicities under its own name,
/// wherever these are a single data column.
pub proof fn missing_counts_are_the_multiplicities(
    a: AggregateView,
    cols: Seq<ColView>,
    m: TableView,
    d: int,
    k: int,
)
    requires
        0 <= d < m.cols.len(),
        m.cols[d].field.name != "__activator__"@,
        m.cols[d].field.name != "__row_id__"@,
        forall|j: int|
            0 <= j < m.cols.len() && j != d ==> (#[trigger] m.cols[j]).field.name
                == "__activator__"@ || m.cols[j].field.name == "__row_id__"@,
        0 <= k < a.aggr_expr.len(),
        is_count(a.aggr_expr[k].expr),
        forall|i: int|
            0 <= i < cols.len() ==> (#[trigger] cols[i]).field.name != a.aggr_expr[k].schema_name,
    ensures
        counted_cols(a, cols, Some(m)) is Ok,
        exists|i: int|
            0 <= i < counted_cols(a, cols, Some(m))->Ok_0.len() && (#[trigger] counted_cols(
                a,
                cols,
                Some(m),
            )->Ok_0[i]).field.name == a.aggr_expr[k].schema_name && counted_cols(
                a,
                cols,
                Some(m),
            )->Ok_0[i].poly == m.cols[d].poly,
{
    let name = a.aggr_expr[k].schema_name;
    let missing = kept(count_names(a), missing_names(cols));
    let data = indices_where(m.cols, is_data());
    lemma_indices_where(m.cols, is_data());
    lemma_index_found(m.cols, is_data(), d);
    if data.len() > 1 {
        positions_increase(m.cols, is_data(), 0, 1);
        assert(is_data()(m.cols[data[0]]) && is_data()(m.cols[data[1]]));
        assert(false);
    }
    assert(data[0] == d);
    let i = no_kept_item_is_lost(a.aggr_expr, name_if_count(), k);
    lemma_name_index(cols, name);
    let x = no_kept_item_is_lost(count_names(a), missing_names(cols), i);
    assert(missing[x] == name);
    lemma_count_is_there(cols, missing, m.cols[d], x);
    let all = counted_cols(a, cols, Some(m))->Ok_0;
    let c = ColView {
        field: plain_field(name, m.cols[d].field.data_type, m.cols[d].field.nullable),
        poly: m.cols[d].poly,
    };
    assert(all.contains(c));
    let y = choose|y: int| 0 <= y < all.len() && all[y] == c;
    assert(all[y].field.name == name);
}

proof fn lemma_count_is_there(cols: Seq<ColView>, names: Seq<Seq<char>>, m: ColView, x: int)
    requires
        0 <= x < names.len(),
    ensures
        with_counts(cols, names, m).contains(
            ColView {
                field: plain_field(names[x], m.field.data_type, m.field.nullable),
                poly: m.poly,
            },
        ),
    decreases names.len(),
{
    let t = names.drop_last();
    let before = with_counts(cols, t, m);
    let last = ColView {
        field: plain_field(names.last(), m.field.data_type, m.field.nullable),
        poly: m.poly,
    };
    lemma_insert_holds(before, last);
    if x < t.len() {
        lemma_count_is_there(cols, t, m, x);
        let c = ColView {
            field: plain_field(names[x], m.field.data_type, m.field.nullable),
            poly: m.poly,
        };
        assert(t[x] == names[x]);
        if c != last {
            lemma_insert_keeps(before, last.field, last.poly, c);
        }
    }
}

/// The output has the planned size, and that of the input where nothing is
/// planned. Where the plan has no schema the prover goes by the input and the
/// verifier by the plan.
pub proof fn outputs_have_the_planned_size(
    a: AggregateView,
    input: TableView,
    current: Option<TableView>,
    multiplicities: Option<TableView>,
    party: Party,
)
    ensures
        output_table(a, input, current, multiplicities, party) matches Ok(t) ==> match current {
            None => t.log_size == input.log_size,
            Some(c) => if c.schema is None && party == Party::Prover {
                t.log_size == input.log_size
            } else {
                t.log_size == c.log_size
            },
        },
{
}

/// A column that no other shares the name of is found whatever the qualifier,
/// and so is the only one of its name under the qualifier.
pub proof fn single_fields_are_found(
    fields: Seq<FieldView>,
    name: Seq<char>,
    qualifier: Option<Seq<char>>,
    i: int,
)
    requires
        0 <= i < fields.len(),
        fields[i].name == name,
        (forall|j: int| 0 <= j < fields.len() && j != i ==> (#[trigger] fields[j]).name != name)
            || (qualifier_of(fields[i]) == qualifier && forall|j: int|
            0 <= j < fields.len() && j != i && (#[trigger] fields[j]).name == name ==> qualifier_of(
                fields[j],
            ) != qualifier),
    ensures
        single_field(fields, name, qualifier) == Some(i),
{
    let u = named_under(name, qualifier);
    let n = named(name);
    let under = indices_where(fields, u);
    let all = indices_where(fields, n);
    lemma_indices_where(fields, u);
    lemma_indices_where(fields, n);
    lemma_index_found(fields, n, i);
    if under.len() > 1 {
        positions_increase(fields, u, 0, 1);
        assert(u(fields[under[0]]) && u(fields[under[1]]));
        assert(false);
    }
    if under.len() == 1 {
        assert(u(fields[under[0]]));
    } else {
        if qualifier_of(fields[i]) == qualifier {
            lemma_index_found(fields, u, i);
        }
        if all.len() > 1 {
            positions_increase(fields, n, 0, 1);
            assert(n(fields[all[0]]) && n(fields[all[1]]));
            assert(false);
        }
    }
}

/// The segments of a group column are found with it: the lengths of its
/// strings count even where only the column itself carries the qualifier.
pub proof fn groups_are_found_with_their_lengths(
    fields: Seq<FieldView>,
    base: Seq<char>,
    q: Seq<char>,
    i: int,
    k: int,
)
    requires
        0 <= i < fields.len(),
        fields[i].name == base,
        qualifier_of(fields[i]) == Some(q),
        0 <= k < fields.len(),
        fields[k].name == base + "__length"@,
        qualifier_of(fields[k]) is None || qualifier_of(fields[k]) == Some(q),
    ensures
        group_segments(fields, base, Some(q)).contains(i),
        group_segments(fields, base, Some(q)).contains(k),
{
    let u = named_under(base, Some(q));
    lemma_first_index(fields, u);
    assert(u(fields[i]));
    reveal_strlit("__length");
    assert(fields[k].name.len() != base.len());
    let p = is_segment_under(base, Some(q));
    lemma_index_found(fields, p, i);
    lemma_index_found(fields, p, k);
}

/// The groups that the functions are handed are found one for each group
/// expression, in order, each under the name of its expression.
pub proof fn function_groups_stand_in_order(
    fields: Seq<FieldView>,
    group_expr: Seq<ExprView>,
    g: int,
)
    requires
        group_columns(fields, group_expr) is Ok,
        0 <= g < group_expr.len(),
    ensures
        group_columns(fields, group_expr)->Ok_0.len() == group_expr.len(),
        0 <= group_columns(fields, group_expr)->Ok_0[g] < fields.len(),
        group_expr[g] matches ExprView::Column(c) && fields[group_columns(
            fields,
            group_expr,
        )->Ok_0[g]].name == c.name,
    decreases group_expr.len(),
{
    let t = group_expr.drop_last();
    assert(group_columns(fields, t) is Ok);
    lemma_group_columns_count(fields, t);
    match group_expr.last() {
        ExprView::Column(c) => {
            single_fields_have_their_name(fields, c.name, qualifier_text(c));
        },
        _ => {},
    }
    if g < t.len() {
        assert(t[g] == group_expr[g]);
        function_groups_stand_in_order(fields, t, g);
    }
}

proof fn lemma_group_columns_count(fields: Seq<FieldView>, group_expr: Seq<ExprView>)
    requires
        group_columns(fields, group_expr) is Ok,
    ensures
        group_columns(fields, group_expr)->Ok_0.len() == group_expr.len(),
    decreases group_expr.len(),
{
    if group_expr.len() > 0 {
        lemma_group_columns_count(fields, group_expr.drop_last());
    }
}

/// What the functions are handed as groups is over the rows of the output and
/// holds the column of every group expression and no other data.
pub proof fn functions_get_the_groups(t: TableView, group_expr: Seq<ExprView>, g: int)
    requires
        function_groups(t, group_expr) is Ok,
        0 <= g < group_expr.len(),
    ensures
        ({
            let r = function_groups(t, group_expr)->Ok_0;
            &&& r.log_size == t.log_size
            &&& forall|x: int| 0 <= x < r.cols.len() ==> t.cols.contains(#[trigger] r.cols[x])
            &&& exists|x: int|
                0 <= x < r.cols.len() && group_expr[g] == ExprView::Column(
                    ColumnView {
                        relation: group_expr[g]->Column_0.relation,
                        name: (#[trigger] r.cols[x]).field.name,
                    },
                )
        }),
{
    let fields = col_fields(t.cols);
    let positions = group_columns(fields, group_expr)->Ok_0;
    function_groups_stand_in_order(fields, group_expr, g);
    assert forall|i: int| 0 <= i < positions.len() implies 0 <= #[trigger] positions[i]
        < t.cols.len() by {
        function_groups_stand_in_order(fields, group_expr, i);
    }
    subtables_hold_the_selection_and_the_system_columns(t, positions);
    let r = subtable(t, positions);
    assert(holds_field(r.cols, t.cols[positions[g]].field));
    let x = choose|x: int|
        0 <= x < r.cols.len() && (#[trigger] r.cols[x]).field == t.cols[positions[g]].field;
    assert(fields[positions[g]] == t.cols[positions[g]].field);
    assert(r.cols[x].field.name == group_expr[g]->Column_0.name);
}

/// The verifier hands the functions their tables and the prover does not.
/// Whoever has the input hands the gadget its keys, those of the input first,
/// and a fault of the input is reported before one of the output.
pub proof fn parties_hand_on_what_is_theirs(
    a: AggregateView,
    input: Option<TableView>,
    output: TableView,
    party: Party,
    w: PlanWiring,
)
    requires
        plan_wiring_is(a, input, Some(output), party, Ok(Some(w))),
    ensures
        w.functions is Some <==> party == Party::Verifier,
        w.gadget is Some <==> input is Some,
        w.gadget matches Some((x, y)) ==> {
            &&& a.group_expr.len() > 0 ==> holds_the_groups_of(x@, input->0, a.group_expr)
                && holds_the_groups_of(y@, output, a.group_expr)
            &&& a.group_expr.len() == 0 ==> holds_the_one_group_of(x@, input->0)
                && holds_the_one_group_of(y@, output)
        },
        w.functions matches Some(f) ==> f.columns@.len() == a.aggr_expr.len(),
{
    if input is Some {
        group_keys_come_from_their_own_table(a, input->0, output);
    }
}

/// A fault of the input's keys is the one that is reported, whatever is wrong
/// with those of the output.
pub proof fn faults_of_the_input_come_first(a: AggregateView, input: TableView, output: TableView)
    requires
        group_keys(input, a.group_expr) is Err,
    ensures
        gadget_tables(a, input, output) == Err::<(TableView, TableView), AggregateError>(
            group_keys(input, a.group_expr)->Err_0,
        ),
{
}

/// The planned shape of the output has the fields of the input, all but the
/// activator and in order, then the results, and the activator last.
pub proof fn shapes_end_in_results_and_activator(
    a: AggregateView,
    input: Seq<QFieldView>,
    i: int,
    k: int,
)
    requires
        0 <= i < input.len(),
        a.aggr_expr.len() <= a.schema.len(),
        0 <= k < a.aggr_expr.len(),
    ensures
        ({
            let shape = output_shape(a, input);
            let n = shape.len() - 1 - a.aggr_expr.len();
            &&& n >= 0
            &&& shape.last().name == "__activator__"@
            &&& shape.last().data_type == TypeView::Boolean
            &&& shape[n + k] == a.schema[a.schema.len() - a.aggr_expr.len() + k]
            &&& forall|x: int| 0 <= x < n ==> (#[trigger] shape[x]).name != "__activator__"@
            &&& input[i].field.name != "__activator__"@ ==> shape.take(n).contains(input[i].field)
        }),
{
    let f = field_but_activator();
    let passed = kept(input, f);
    let shape = output_shape(a, input);
    let n = shape.len() - 1 - a.aggr_expr.len();
    assert(n == passed.len());
    assert forall|x: int| 0 <= x < n implies (#[trigger] shape[x]).name != "__activator__"@ by {
        let j = kept_items_come_from_the_list(input, f, x);
    }
    if input[i].field.name != "__activator__"@ {
        let x = no_kept_item_is_lost(input, f, i);
        assert(shape.take(n)[x] == input[i].field);
    }
}

/// The groups come first in their projection, in order and each under its own
/// name; behind them stand only system columns of the schema.
pub proof fn groups_are_projected_in_order(s: Seq<QFieldView>, group_expr: Seq<ExprView>, i: int)
    requires
        forall|g: int|
            0 <= g < group_expr.len() ==> ((#[trigger] group_expr[g]) matches ExprView::Column(c)
                && c.name != "__activator__"@),
        0 <= i < projected_groups(s, group_expr).len(),
    ensures
        projected_groups(s, group_expr).len() >= group_expr.len(),
        i < group_expr.len() ==> (projected_groups(s, group_expr)[i] matches ExprView::Column(x)
            && group_expr[i] matches ExprView::Column(c) && x.name == c.name),
        i >= group_expr.len() ==> refers_to(s, projected_groups(s, group_expr)[i], "__row_id__"@)
            || refers_to(s, projected_groups(s, group_expr)[i], "__activator__"@),
{
    let keys = resolved_exprs(Resolution::Nearest, s, group_expr);
    let a = with_activators(s, keys);
    let r = projected_groups(s, group_expr);
    reveal_with_fuel(resolved_exprs, 2);
    assert(keys.len() == group_expr.len());
    assert forall|g: int| 0 <= g < group_expr.len() implies ((#[trigger] keys[g]) matches
        ExprView::Column(x) && x.name == group_expr[g]->Column_0.name) by {
        assert(group_expr[g] is Column);
        assert(keys[g] == resolved_expr(Resolution::Nearest, s, group_expr[g]));
        resolving_keeps_expressions(Resolution::Nearest, s, group_expr[g]);
    }
    the_activators_are_all_that_is_added(s, keys);
    the_row_number_is_all_that_is_added(s, a);
    assert forall|g: int| 0 <= g < keys.len() implies #[trigger] a[g] == keys[g] by {
        assert(a.take(keys.len() as int)[g] == a[g]);
    }
    if r != a {
        let at = choose|at: int|
            0 <= at < r.len() && r.remove(at) == a && refers_to(
                s,
                #[trigger] r[at],
                "__row_id__"@,
            ) && (at == a.len() || (a[at] matches ExprView::Column(x) && x.name
                == "__activator__"@));
        if at < keys.len() {
            assert(a[at] == keys[at]);
            assert(group_expr[at] is Column);
        }
        if i < at {
            assert(r.remove(at)[i] == r[i]);
        } else if i > at {
            assert(r.remove(at)[i - 1] == r[i]);
        }
    }
    if i < group_expr.len() {
        assert(group_expr[i] is Column);
    }
}

/// What the gadget is not handed is what is reported as missing, and a gadget
/// whose tables are all there is wired.
pub proof fn missing_parts_are_reported(
    a: AggregateView,
    input: Option<TableView>,
    output: Option<TableView>,
)
    ensures
        gadget_wiring(a, input, output) matches Err(e) ==> {
            &&& e == AggregateError::MissingOutput ==> output is None
            &&& e == AggregateError::MissingInput ==> input is None && a.group_expr.len() > 0
            &&& e == AggregateError::MissingActivator ==> (output matches Some(o) && forall|i: int|
                0 <= i < o.cols.len() ==> (#[trigger] o.cols[i]).field.name != "__activator__"@)
        },
        input is Some && (output matches Some(o) && exists|i: int|
            0 <= i < o.cols.len() && (#[trigger] o.cols[i]).field.name == "__activator__"@)
            ==> gadget_wiring(a, input, output) is Ok,
{
    if output is Some {
        lemma_name_index(output->0.cols, ACTIVATOR_COL_NAME@);
    }
}

} // verus!
