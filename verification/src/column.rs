//! Column expressions: finding a column, with all of its segments, among the
//! tables and schemas in scope.
use crate::df_schema::{plain_fields, resolved_column, DfSchema, QFieldView};
use crate::hints::{
    append_activator_exprs_if_present, append_row_id_expr_if_present, refers_to,
    the_activators_are_all_that_is_added, the_row_number_is_all_that_is_added, with_activators,
    with_row_id,
};
use crate::plan::{dotted, exprs_view, flat_name, Column, ColumnView, Expr, ExprView};
use crate::schema::{fields_view, same_text_opt, text_opt, Field, FieldView};
use crate::seqs::{
    first_index, indices_where, ints, kept, kept_items_come_from_the_list, lemma_first_index,
    lemma_index_found, lemma_indices_step, lemma_indices_where, lemma_is_first, lemma_kept_step,
    lemma_no_first,
};
use crate::table::{
    col_fields, cols_view, field_qualifier, holds_field, is_segment_of, qualifier_of, segment_of,
    subtable, subtables_hold_the_selection_and_the_system_columns, within, Table, TableView,
    TrackedColumn, ACTIVATOR_COL_NAME, ROW_ID_COL_NAME,
};
use crate::text::{
    after_last_dot, before_last_dot, join_text3, last_segment, name_prefix,
    names_split_at_their_last_dot, same_text,
};
use vstd::prelude::*;
use vstd::string::*;

verus! {

// ---------------------------------------------------------------------------
// Names
// ---------------------------------------------------------------------------

/// The part of a field name behind its last dot.
pub fn field_unqualified_name(name: &str) -> (r: String)
    ensures
        r@ == after_last_dot(name@),
{
    last_segment(name)
}

/// Whether a field name is the given name, with or without a qualifier in
/// front.
pub open spec fn name_matches(field_name: Seq<char>, name: Seq<char>) -> bool {
    field_name == name || after_last_dot(field_name) == name
}

/// Whether a field name is the given name, with or without a qualifier in
/// front.
pub fn field_name_matches_unqualified(field_name: &str, name: &str) -> (r: bool)
    ensures
        r == name_matches(field_name@, name@),
{
    same_text(field_name, name) || same_text(last_segment(field_name).as_str(), name)
}

/// Whether a field name is the given name under the given qualifier.
pub open spec fn qualified_name_matches(
    field_name: Seq<char>,
    relation: Seq<char>,
    name: Seq<char>,
) -> bool {
    field_name == relation + "."@ + name
}

/// Whether a field name is the given name under the given qualifier.
pub fn field_name_matches_qualified(field_name: &str, relation: &str, name: &str) -> (r: bool)
    ensures
        r == qualified_name_matches(field_name@, relation@, name@),
{
    same_text(field_name, join_text3(relation, ".", name).as_str())
}

/// The qualifier of a field: the one it is annotated with, else the part of
/// its name before the last dot.
pub open spec fn qualifier_name(f: FieldView) -> Option<Seq<char>> {
    match qualifier_of(f) {
        Some(q) => Some(q),
        None => before_last_dot(f.name),
    }
}

/// The qualifier of a field.
pub fn field_qualifier_name(field: &Field) -> (r: Option<String>)
    ensures
        text_opt(r) == qualifier_name(field@),
{
    match field_qualifier(field) {
        Some(q) => Some(q),
        None => name_prefix(field.name.as_str()),
    }
}

/// Whether two fields name the same column: the same name behind the last
/// dot and the same qualifier.
pub open spec fn same_identity(a: FieldView, b: FieldView) -> bool {
    after_last_dot(a.name) == after_last_dot(b.name) && qualifier_name(a) == qualifier_name(b)
}

/// Whether two fields name the same column.
pub fn same_field_identity(left: &Field, right: &Field) -> (r: bool)
    ensures
        r == same_identity(left@, right@),
{
    let a: String = field_unqualified_name(left.name.as_str());
    let b: String = field_unqualified_name(right.name.as_str());
    same_text(a.as_str(), b.as_str()) && same_text_opt(
        &field_qualifier_name(left),
        &field_qualifier_name(right),
    )
}

// ---------------------------------------------------------------------------
// Fields and columns
// ---------------------------------------------------------------------------

/// Whether a field is the given column. A qualified column asks for the
/// qualifier, as an annotation or in front of the name.
pub open spec fn field_matches(f: FieldView, c: ColumnView) -> bool {
    match c.relation {
        Some(r) => (name_matches(f.name, c.name) && qualifier_of(f) == Some(dotted(r)))
            || qualified_name_matches(f.name, dotted(r), c.name),
        None => name_matches(f.name, c.name),
    }
}

/// Whether a field is the given column.
pub fn field_matches_column(field: &Field, column: &Column) -> (r: bool)
    ensures
        r == field_matches(field@, column@),
{
    match &column.relation {
        Some(t) => {
            let relation: String = t.to_text();
            let annotated: bool = match field_qualifier(field) {
                Some(q) => same_text(q.as_str(), relation.as_str()),
                None => false,
            };
            (annotated && field_name_matches_unqualified(
                field.name.as_str(),
                column.name.as_str(),
            )) || field_name_matches_qualified(
                field.name.as_str(),
                relation.as_str(),
                column.name.as_str(),
            )
        },
        None => field_name_matches_unqualified(field.name.as_str(), column.name.as_str()),
    }
}

/// Satisfied by the fields that are the given column.
pub open spec fn is_column(c: ColumnView) -> spec_fn(FieldView) -> bool {
    |f: FieldView| field_matches(f, c)
}

/// The column without its qualifier.
pub open spec fn bare(c: ColumnView) -> ColumnView {
    ColumnView { relation: None, name: c.name }
}

/// Position of the field of a column: the first that is the column, else the
/// first of its name.
pub open spec fn field_for(fields: Seq<FieldView>, c: ColumnView) -> Option<int> {
    match first_index(fields, is_column(c)) {
        Some(i) => Some(i),
        None => first_index(fields, is_column(bare(c))),
    }
}

fn first_field(fields: &Vec<Field>, column: &Column) -> (r: Option<usize>)
    ensures
        match r {
            Some(i) => first_index(fields_view(fields@), is_column(column@)) == Some(i as int) && i
                < fields@.len(),
            None => first_index(fields_view(fields@), is_column(column@)) is None,
        },
{
    let ghost views = fields_view(fields@);
    let ghost p = is_column(column@);
    let mut i: usize = 0;
    while i < fields.len()
        invariant
            i <= fields@.len(),
            views == fields_view(fields@),
            p == is_column(column@),
            forall|j: int| 0 <= j < i ==> !p(#[trigger] views[j]),
        decreases fields@.len() - i,
    {
        assert(views[i as int] == fields@[i as int]@);
        if field_matches_column(&fields[i], column) {
            proof {
                lemma_is_first(views, p, i as int);
            }
            return Some(i);
        }
        i = i + 1;
    }
    proof {
        lemma_no_first(views, p);
    }
    None
}

/// Position of the field of a column in a schema.
pub fn schema_field_for_column(fields: &Vec<Field>, column: &Column) -> (r: Option<usize>)
    ensures
        match r {
            Some(i) => field_for(fields_view(fields@), column@) == Some(i as int) && i
                < fields@.len(),
            None => field_for(fields_view(fields@), column@) is None,
        },
{
    match first_field(fields, column) {
        Some(i) => Some(i),
        None => first_field(fields, &Column::new_unqualified(column.name.as_str())),
    }
}

fn first_tracked(cols: &Vec<TrackedColumn>, column: &Column) -> (r: Option<usize>)
    ensures
        match r {
            Some(i) => first_index(col_fields(cols_view(cols@)), is_column(column@)) == Some(
                i as int,
            ) && i < cols@.len(),
            None => first_index(col_fields(cols_view(cols@)), is_column(column@)) is None,
        },
{
    let ghost views = col_fields(cols_view(cols@));
    let ghost p = is_column(column@);
    let mut i: usize = 0;
    while i < cols.len()
        invariant
            i <= cols@.len(),
            views == col_fields(cols_view(cols@)),
            p == is_column(column@),
            forall|j: int| 0 <= j < i ==> !p(#[trigger] views[j]),
        decreases cols@.len() - i,
    {
        assert(views[i as int] == cols@[i as int].field@);
        if field_matches_column(&cols[i].field, column) {
            proof {
                lemma_is_first(views, p, i as int);
            }
            return Some(i);
        }
        i = i + 1;
    }
    proof {
        lemma_no_first(views, p);
    }
    None
}

/// Position of the tracked column that a column refers to.
pub fn tracked_table_index_of_column(table: &Table, column: &Column) -> (r: Option<usize>)
    ensures
        match r {
            Some(i) => field_for(col_fields(table@.cols), column@) == Some(i as int) && i
                < table.cols@.len(),
            None => field_for(col_fields(table@.cols), column@) is None,
        },
{
    match first_tracked(&table.cols, column) {
        Some(i) => Some(i),
        None => first_tracked(&table.cols, &Column::new_unqualified(column.name.as_str())),
    }
}

/// Satisfied by the segments of a primary field: those of its name whose
/// qualifier, where both have one, is the same.
pub open spec fn is_segment_of_field(primary: FieldView) -> spec_fn(FieldView) -> bool {
    |f: FieldView|
        segment_of(f.name, primary.name) && !(qualifier_of(primary) is Some && qualifier_of(f)
            is Some && qualifier_of(f) != qualifier_of(primary))
}

/// Positions of all the segments of a column, in the order of the fields;
/// none where the column is not found.
pub open spec fn segments_for(fields: Seq<FieldView>, c: ColumnView) -> Seq<int> {
    match field_for(fields, c) {
        Some(i) => indices_where(fields, is_segment_of_field(fields[i])),
        None => Seq::empty(),
    }
}

/// Positions of all the segments of a column: its primary segment and the
/// auxiliary ones, in the order of the table.
pub fn tracked_table_indices_of_column_with_segments(table: &Table, column: &Column) -> (r: Vec<
    usize,
>)
    ensures
        ints(r@) == segments_for(col_fields(table@.cols), column@),
        within(r@, table.cols@.len()),
{
    let ghost fields = col_fields(table@.cols);
    let mut out: Vec<usize> = Vec::new();
    let primary: usize = match tracked_table_index_of_column(table, column) {
        Some(i) => i,
        None => {
            assert(ints(out@) =~= Seq::<int>::empty());
            return out;
        },
    };
    assert(fields[primary as int] == table.cols@[primary as int].field@);
    let ghost p = is_segment_of_field(fields[primary as int]);
    let base: &Field = &table.cols[primary].field;
    let qualifier: Option<String> = field_qualifier(base);
    let mut i: usize = 0;
    assert(ints(out@) =~= indices_where(fields.take(0), p));
    while i < table.cols.len()
        invariant
            i <= table.cols@.len(),
            fields == col_fields(table@.cols),
            p == is_segment_of_field(base@),
            text_opt(qualifier) == qualifier_of(base@),
            ints(out@) == indices_where(fields.take(i as int), p),
            within(out@, table.cols@.len()),
        decreases table.cols@.len() - i,
    {
        proof {
            lemma_indices_step(fields, p, i as int);
            assert(fields[i as int] == table.cols@[i as int].field@);
        }
        let field: &Field = &table.cols[i].field;
        let conflicting: bool = match (&qualifier, field_qualifier(field)) {
            (Some(a), Some(b)) => !same_text(a.as_str(), b.as_str()),
            _ => false,
        };
        if is_segment_of(field.name.as_str(), base.name.as_str()) && !conflicting {
            let ghost before = ints(out@);
            out.push(i);
            assert(ints(out@) =~= before.push(i as int));
        }
        i = i + 1;
    }
    assert(fields.take(fields.len() as int) =~= fields);
    out
}

/// A column is found with at least its primary segment.
pub proof fn found_columns_have_segments(fields: Seq<FieldView>, c: ColumnView)
    ensures
        match field_for(fields, c) {
            Some(i) => segments_for(fields, c).contains(i),
            None => segments_for(fields, c).len() == 0,
        },
{
    match field_for(fields, c) {
        Some(i) => {
            lemma_first_index(fields, is_column(c));
            lemma_first_index(fields, is_column(bare(c)));
            lemma_index_found(fields, is_segment_of_field(fields[i]), i);
        },
        None => {},
    }
}

// ---------------------------------------------------------------------------
// Binding a column to a table in scope
// ---------------------------------------------------------------------------

/// A node in scope and its table, where it has one.
#[derive(Debug)]
pub struct ScopeTable {
    pub id: usize,
    pub table: Option<Table>,
}

/// Mathematical counterpart of [`ScopeTable`].
#[verifier::ext_equal]
pub struct ScopeView {
    pub id: usize,
    pub table: Option<TableView>,
}

impl ScopeTable {
    /// The node as a mathematical value.
    pub open spec fn view(&self) -> ScopeView {
        ScopeView {
            id: self.id,
            table: match self.table {
                Some(t) => Some(t@),
                None => None,
            },
        }
    }
}

/// The nodes in scope as mathematical values.
pub open spec fn scopes_view(s: Seq<ScopeTable>) -> Seq<ScopeView> {
    Seq::new(s.len(), |i: int| s[i]@)
}

/// Where a column was found: a node in scope and the positions of its
/// segments in that node's table.
#[derive(Debug)]
pub struct ColumnBinding {
    pub scope: usize,
    pub indices: Vec<usize>,
}

/// Mathematical counterpart of [`ColumnBinding`].
#[verifier::ext_equal]
pub struct BindingView {
    pub scope: usize,
    pub indices: Seq<usize>,
}

impl ColumnBinding {
    /// The binding as a mathematical value.
    pub open spec fn view(&self) -> BindingView {
        BindingView { scope: self.scope, indices: self.indices@ }
    }
}

/// The optional binding as a mathematical value.
pub open spec fn binding_opt(b: Option<ColumnBinding>) -> Option<BindingView> {
    match b {
        Some(x) => Some(x@),
        None => None,
    }
}

/// Satisfied by the node of the given identifier.
pub open spec fn has_id(id: usize) -> spec_fn(ScopeView) -> bool {
    |s: ScopeView| s.id == id
}

/// Satisfied by the nodes whose table has the column.
pub open spec fn offers(c: ColumnView) -> spec_fn(ScopeView) -> bool {
    |s: ScopeView|
        match s.table {
            Some(t) => field_for(col_fields(t.cols), c) is Some,
            None => false,
        }
}

/// Whether positions still fit a table: there are some, all are within the
/// table, and the schema has the column at the first.
pub open spec fn still_fits(t: TableView, indices: Seq<usize>, c: ColumnView) -> bool {
    &&& indices.len() > 0
    &&& within(indices, t.cols.len())
    &&& match t.schema {
        Some(s) => indices[0] < s.fields.len() && field_matches(s.fields[indices[0] as int], c),
        None => false,
    }
}

/// The position in scope that an earlier binding still fits.
pub open spec fn cached_scope(
    scopes: Seq<ScopeView>,
    cached: Option<BindingView>,
    c: ColumnView,
) -> Option<int> {
    match cached {
        Some(b) => match first_index(scopes, has_id(b.scope)) {
            Some(k) => match scopes[k].table {
                Some(t) => if still_fits(t, b.indices, c) {
                    Some(k)
                } else {
                    None
                },
                None => None,
            },
            None => None,
        },
        None => None,
    }
}

/// The table of a column: through an earlier binding where that still fits,
/// else from the first node in scope that has the column.
pub open spec fn bound_table(
    scopes: Seq<ScopeView>,
    cached: Option<BindingView>,
    c: ColumnView,
) -> Option<TableView> {
    match cached_scope(scopes, cached, c) {
        Some(k) => Some(subtable(scopes[k].table->0, ints(cached->0.indices))),
        None => match first_index(scopes, offers(c)) {
            Some(k) => Some(
                subtable(
                    scopes[k].table->0,
                    segments_for(col_fields(scopes[k].table->0.cols), c),
                ),
            ),
            None => None,
        },
    }
}

/// Whether a binding is the one to keep for the next time: the earlier one
/// where it still fits, else the one that was found.
pub open spec fn kept_binding(
    scopes: Seq<ScopeView>,
    cached: Option<BindingView>,
    c: ColumnView,
    b: BindingView,
) -> bool {
    match cached_scope(scopes, cached, c) {
        Some(_) => cached == Some(b),
        None => match first_index(scopes, offers(c)) {
            Some(k) => b.scope == scopes[k].id && ints(b.indices) == segments_for(
                col_fields(scopes[k].table->0.cols),
                c,
            ),
            None => false,
        },
    }
}

fn fits(table: &Table, indices: &Vec<usize>, column: &Column) -> (r: bool)
    ensures
        r == still_fits(table@, indices@, column@),
{
    if indices.len() == 0 {
        return false;
    }
    let n: usize = table.cols.len();
    let mut i: usize = 0;
    while i < indices.len()
        invariant
            i <= indices@.len(),
            n == table.cols@.len(),
            forall|j: int| 0 <= j < i ==> (#[trigger] indices@[j]) < n,
        decreases indices@.len() - i,
    {
        if indices[i] >= n {
            assert(!within(indices@, n as nat));
            return false;
        }
        i = i + 1;
    }
    match &table.schema {
        Some(s) => {
            let first: usize = indices[0];
            first < s.fields.len() && field_matches_column(&s.fields[first], column)
        },
        None => false,
    }
}

fn scope_of(scopes: &Vec<ScopeTable>, id: usize) -> (r: Option<usize>)
    ensures
        match r {
            Some(k) => first_index(scopes_view(scopes@), has_id(id)) == Some(k as int) && k
                < scopes@.len(),
            None => first_index(scopes_view(scopes@), has_id(id)) is None,
        },
{
    let ghost views = scopes_view(scopes@);
    let ghost p = has_id(id);
    let mut i: usize = 0;
    while i < scopes.len()
        invariant
            i <= scopes@.len(),
            views == scopes_view(scopes@),
            p == has_id(id),
            forall|j: int| 0 <= j < i ==> !p(#[trigger] views[j]),
        decreases scopes@.len() - i,
    {
        assert(views[i as int] == scopes@[i as int]@);
        if scopes[i].id == id {
            proof {
                lemma_is_first(views, p, i as int);
            }
            return Some(i);
        }
        i = i + 1;
    }
    proof {
        lemma_no_first(views, p);
    }
    None
}

fn reuse_binding(scopes: &Vec<ScopeTable>, cached: &ColumnBinding, column: &Column) -> (r: Option<
    Table,
>)
    ensures
        match r {
            Some(t) => cached_scope(scopes_view(scopes@), Some(cached@), column@) matches Some(k)
                && t@ == subtable(
                scopes_view(scopes@)[k].table->0,
                ints(cached@.indices),
            ),
            None => cached_scope(scopes_view(scopes@), Some(cached@), column@) is None,
        },
{
    match scope_of(scopes, cached.scope) {
        Some(k) => {
            assert(scopes_view(scopes@)[k as int] == scopes@[k as int]@);
            match &scopes[k].table {
                Some(t) => {
                    if fits(t, &cached.indices, column) {
                        Some(t.tracked_subtable_by_indices(&cached.indices))
                    } else {
                        None
                    }
                },
                None => None,
            }
        },
        None => None,
    }
}

/// The table of a column expression, and the binding to keep for the next
/// time; `None` where no node in scope has the column.
pub fn add_virtual_witness(
    scopes: &Vec<ScopeTable>,
    cached: Option<ColumnBinding>,
    column: &Column,
) -> (r: Option<(Table, ColumnBinding)>)
    ensures
        match r {
            Some((t, b)) => bound_table(scopes_view(scopes@), binding_opt(cached), column@) == Some(
                t@,
            ) && kept_binding(scopes_view(scopes@), binding_opt(cached), column@, b@),
            None => bound_table(scopes_view(scopes@), binding_opt(cached), column@) is None,
        },
{
    let ghost views = scopes_view(scopes@);
    let ghost before = binding_opt(cached);
    match cached {
        Some(b) => {
            match reuse_binding(scopes, &b, column) {
                Some(t) => return Some((t, b)),
                None => {},
            }
        },
        None => {},
    }
    let ghost p = offers(column@);
    let mut i: usize = 0;
    while i < scopes.len()
        invariant
            i <= scopes@.len(),
            views == scopes_view(scopes@),
            p == offers(column@),
            before == binding_opt(cached),
            cached_scope(views, before, column@) is None,
            forall|j: int| 0 <= j < i ==> !p(#[trigger] views[j]),
        decreases scopes@.len() - i,
    {
        assert(views[i as int] == scopes@[i as int]@);
        match &scopes[i].table {
            Some(t) => {
                let indices: Vec<usize> = tracked_table_indices_of_column_with_segments(t, column);
                proof {
                    found_columns_have_segments(col_fields(t@.cols), column@);
                    assert(ints(indices@).len() == indices@.len());
                }
                if indices.len() > 0 {
                    proof {
                        lemma_is_first(views, p, i as int);
                    }
                    let sub = t.tracked_subtable_by_indices(&indices);
                    return Some((sub, ColumnBinding { scope: scopes[i].id, indices }));
                }
            },
            None => {},
        }
        i = i + 1;
    }
    proof {
        lemma_no_first(views, p);
    }
    None
}

/// Whether no two nodes in scope have the same identifier.
pub open spec fn distinct_ids(scopes: Seq<ScopeView>) -> bool {
    forall|i: int, j: int|
        0 <= i < j < scopes.len() ==> (#[trigger] scopes[i]).id != (#[trigger] scopes[j]).id
}

/// Coming back with the binding that a search in the same scope has left
/// gives the same table as a new search.
pub proof fn a_kept_binding_changes_nothing(
    scopes: Seq<ScopeView>,
    c: ColumnView,
    b: BindingView,
)
    requires
        distinct_ids(scopes),
        kept_binding(scopes, None, c, b),
    ensures
        bound_table(scopes, Some(b), c) == bound_table(scopes, None, c),
{
    match first_index(scopes, offers(c)) {
        Some(k) => {
            lemma_first_index(scopes, offers(c));
            lemma_first_index(scopes, has_id(b.scope));
            assert(has_id(b.scope)(scopes[k]));
            match first_index(scopes, has_id(b.scope)) {
                Some(j) => {
                    assert(j == k) by {
                        if j < k {
                            assert(scopes[j].id != scopes[k].id);
                        } else if k < j {
                            assert(scopes[k].id != scopes[j].id);
                        }
                    }
                },
                None => {},
            }
        },
        None => {},
    }
}

// ---------------------------------------------------------------------------
// The planned output
// ---------------------------------------------------------------------------

/// Satisfied by the fields of a schema that are the given column.
pub open spec fn is_schema_column(c: ColumnView) -> spec_fn(QFieldView) -> bool {
    |q: QFieldView|
        match c.relation {
            Some(r) => (name_matches(q.field.name, c.name) && q.qualifier == Some(r))
                || qualified_name_matches(q.field.name, dotted(r), c.name),
            None => name_matches(q.field.name, c.name),
        }
}

/// Whether a schema has the given column.
pub open spec fn contains_column(s: Seq<QFieldView>, c: ColumnView) -> bool {
    first_index(s, is_schema_column(c)) is Some
}

/// Whether a schema has the given column.
pub fn schema_contains_column(schema: &DfSchema, column: &Column) -> (r: bool)
    ensures
        r == contains_column(schema@, column@),
{
    let ghost p = is_schema_column(column@);
    let mut i: usize = 0;
    while i < schema.fields.len()
        invariant
            i <= schema.fields@.len(),
            p == is_schema_column(column@),
            forall|j: int| 0 <= j < i ==> !p(#[trigger] schema@[j]),
        decreases schema.fields@.len() - i,
    {
        assert(schema@[i as int] == schema.fields@[i as int]@);
        let name: &str = schema.fields[i].field.name.as_str();
        let unqualified: bool = field_name_matches_unqualified(name, column.name.as_str());
        let found: bool = match &column.relation {
            Some(relation) => {
                let same: bool = match &schema.fields[i].qualifier {
                    Some(q) => q.same(relation),
                    None => false,
                };
                (unqualified && same) || field_name_matches_qualified(
                    name,
                    relation.to_text().as_str(),
                    column.name.as_str(),
                )
            },
            None => unqualified,
        };
        assert(found == p(schema@[i as int]));
        if found {
            proof {
                lemma_is_first(schema@, p, i as int);
            }
            return true;
        }
        i = i + 1;
    }
    proof {
        lemma_no_first(schema@, p);
    }
    false
}

/// The column as the schema spells it, as an expression.
pub fn resolve_column_expr(schema: &DfSchema, column: &Column) -> (r: Expr)
    ensures
        r@ == ExprView::Column(resolved_column(schema@, column@)),
{
    Expr::Column(schema.resolve(column))
}

/// The projection that a column expression plans over the schema it was
/// found in: the column and the system columns. The activator is not added
/// to itself.
pub open spec fn output_projection(s: Seq<QFieldView>, c: ColumnView) -> Seq<ExprView> {
    let column = seq![ExprView::Column(resolved_column(s, c))];
    with_row_id(
        s,
        if c.name == ACTIVATOR_COL_NAME@ {
            column
        } else {
            with_activators(s, column)
        },
    )
}

/// The projection that a column expression plans over the schema it was
/// found in.
pub fn output_exprs(schema: &DfSchema, column: &Column) -> (r: Vec<Expr>)
    ensures
        exprs_view(r@) == output_projection(schema@, column@),
{
    let mut exprs: Vec<Expr> = Vec::new();
    exprs.push(resolve_column_expr(schema, column));
    assert(exprs_view(exprs@) =~= seq![ExprView::Column(resolved_column(schema@, column@))]);
    if !same_text(column.name.as_str(), ACTIVATOR_COL_NAME) {
        append_activator_exprs_if_present(schema, &mut exprs);
    }
    append_row_id_expr_if_present(schema, &mut exprs);
    exprs
}

/// The schemas of a list as mathematical values.
pub open spec fn schemas_view(s: Seq<DfSchema>) -> Seq<Seq<QFieldView>> {
    Seq::new(s.len(), |i: int| s[i]@)
}

/// Satisfied by the schemas that have the given column.
pub open spec fn has_the_column(c: ColumnView) -> spec_fn(Seq<QFieldView>) -> bool {
    |s: Seq<QFieldView>| contains_column(s, c)
}

/// Position of the first schema in scope that has the column.
pub fn first_scope_with_column(schemas: &Vec<DfSchema>, column: &Column) -> (r: Option<usize>)
    ensures
        match r {
            Some(i) => first_index(schemas_view(schemas@), has_the_column(column@)) == Some(
                i as int,
            ) && i < schemas@.len(),
            None => first_index(schemas_view(schemas@), has_the_column(column@)) is None,
        },
{
    let ghost views = schemas_view(schemas@);
    let ghost p = has_the_column(column@);
    let mut i: usize = 0;
    while i < schemas.len()
        invariant
            i <= schemas@.len(),
            views == schemas_view(schemas@),
            p == has_the_column(column@),
            forall|j: int| 0 <= j < i ==> !p(#[trigger] views[j]),
        decreases schemas@.len() - i,
    {
        assert(views[i as int] == schemas@[i as int]@);
        if schema_contains_column(&schemas[i], column) {
            proof {
                lemma_is_first(views, p, i as int);
            }
            return Some(i);
        }
        i = i + 1;
    }
    proof {
        lemma_no_first(views, p);
    }
    None
}

/// What is known of a node when the shape of an output is planned: the
/// static schema of a relational operator, and the schema of the node's own
/// planned output. A gadget has neither.
#[derive(Debug)]
pub struct ScopeSchema {
    pub lp_schema: Option<DfSchema>,
    pub output: Option<DfSchema>,
}

/// Mathematical counterpart of [`ScopeSchema`].
#[verifier::ext_equal]
pub struct ScopeSchemaView {
    pub lp_schema: Option<Seq<QFieldView>>,
    pub output: Option<Seq<QFieldView>>,
}

/// The optional schema as a mathematical value.
pub open spec fn schema_opt(s: Option<DfSchema>) -> Option<Seq<QFieldView>> {
    match s {
        Some(x) => Some(x@),
        None => None,
    }
}

impl ScopeSchema {
    /// The node as a mathematical value.
    pub open spec fn view(&self) -> ScopeSchemaView {
        ScopeSchemaView { lp_schema: schema_opt(self.lp_schema), output: schema_opt(self.output) }
    }
}

/// The nodes in scope as mathematical values.
pub open spec fn scope_schemas_view(s: Seq<ScopeSchema>) -> Seq<ScopeSchemaView> {
    Seq::new(s.len(), |i: int| s[i]@)
}

/// Satisfied by the relational operators whose static schema has the column.
pub open spec fn lp_has(c: ColumnView) -> spec_fn(ScopeSchemaView) -> bool {
    |x: ScopeSchemaView|
        match x.lp_schema {
            Some(s) => contains_column(s, c),
            None => false,
        }
}

/// Satisfied by the nodes whose planned output has the column. A relational
/// operator is not asked unless its static schema has it.
pub open spec fn output_has(c: ColumnView) -> spec_fn(ScopeSchemaView) -> bool {
    |x: ScopeSchemaView|
        match x.output {
            Some(s) => (x.lp_schema is None || lp_has(c)(x)) && contains_column(s, c),
            None => false,
        }
}

/// The parent in front of the nodes in scope.
pub open spec fn with_parent(parent: Option<ScopeSchemaView>, scopes: Seq<ScopeSchemaView>) -> Seq<
    ScopeSchemaView,
> {
    match parent {
        Some(x) => seq![x] + scopes,
        None => scopes,
    }
}

/// The fields of the schema that the column is read from: that of the first
/// relational operator whose static schema has the column, else the first
/// planned output that has it, the parent coming before the nodes in scope.
pub open spec fn source_fields(nodes: Seq<ScopeSchemaView>, c: ColumnView) -> Option<
    Seq<FieldView>,
> {
    match first_index(nodes, lp_has(c)) {
        Some(i) => Some(plain_fields(nodes[i].lp_schema->0)),
        None => match first_index(nodes, output_has(c)) {
            Some(i) => Some(plain_fields(nodes[i].output->0)),
            None => None,
        },
    }
}

/// The fields among which the system columns are looked for: those of the
/// first planned output that has the column, else those that the column is
/// read from.
pub open spec fn system_fields(nodes: Seq<ScopeSchemaView>, c: ColumnView) -> Option<
    Seq<FieldView>,
> {
    match first_index(nodes, output_has(c)) {
        Some(i) => Some(plain_fields(nodes[i].output->0)),
        None => source_fields(nodes, c),
    }
}

/// A field, where it has the given name.
pub open spec fn field_if_named(name: Seq<char>) -> spec_fn(FieldView) -> Option<FieldView> {
    |f: FieldView|
        if f.name == name {
            Some(f)
        } else {
            None
        }
}

/// Satisfied by the fields that are annotated with a qualifier.
pub open spec fn has_qualifier() -> spec_fn(FieldView) -> bool {
    |f: FieldView| qualifier_of(f) is Some
}

/// The row number to carry along: the first that is annotated with a
/// qualifier, else the only one.
pub open spec fn row_id_field_choice(fields: Seq<FieldView>) -> Option<FieldView> {
    let ids = kept(fields, field_if_named(ROW_ID_COL_NAME@));
    match first_index(ids, has_qualifier()) {
        Some(i) => Some(ids[i]),
        None => if ids.len() == 1 {
            Some(ids[0])
        } else {
            None
        },
    }
}

/// The activator to carry along: the first that is annotated with a
/// qualifier, else the first.
pub open spec fn activator_field_choice(fields: Seq<FieldView>) -> Option<FieldView> {
    let activators = kept(fields, field_if_named(ACTIVATOR_COL_NAME@));
    match first_index(activators, has_qualifier()) {
        Some(i) => Some(activators[i]),
        None => if activators.len() > 0 {
            Some(activators[0])
        } else {
            None
        },
    }
}

/// The fields with one more, unless that is the selected column itself.
pub open spec fn with_other(
    fields: Seq<FieldView>,
    extra: Option<FieldView>,
    selected: FieldView,
) -> Seq<FieldView> {
    match extra {
        Some(f) if !same_identity(f, selected) => fields.push(f),
        _ => fields,
    }
}

/// The fields of a column's planned output where only shapes are planned:
/// the column, the row number and the activator.
pub open spec fn output_shape(nodes: Seq<ScopeSchemaView>, c: ColumnView) -> Option<Seq<FieldView>> {
    match source_fields(nodes, c) {
        None => None,
        Some(source) => match field_for(source, c) {
            None => None,
            Some(i) => {
                let selected = source[i];
                let system = system_fields(nodes, c)->0;
                let with_id = with_other(seq![selected], row_id_field_choice(system), selected);
                Some(
                    if c.name == ACTIVATOR_COL_NAME@ {
                        with_id
                    } else {
                        with_other(with_id, activator_field_choice(system), selected)
                    },
                )
            },
        },
    }
}

fn node_lp_has(node: &ScopeSchema, column: &Column) -> (r: bool)
    ensures
        r == lp_has(column@)(node@),
{
    match &node.lp_schema {
        Some(s) => schema_contains_column(s, column),
        None => false,
    }
}

fn node_output_has(node: &ScopeSchema, column: &Column) -> (r: bool)
    ensures
        r == output_has(column@)(node@),
{
    let asked: bool = match &node.lp_schema {
        Some(s) => schema_contains_column(s, column),
        None => true,
    };
    match &node.output {
        Some(s) => asked && schema_contains_column(s, column),
        None => false,
    }
}

fn find_lp<'a>(
    parent: Option<&'a ScopeSchema>,
    scopes: &'a Vec<ScopeSchema>,
    column: &Column,
) -> (r: Option<&'a ScopeSchema>)
    ensures
        match r {
            Some(x) => first_index(nodes_of(parent, scopes@), lp_has(column@)) matches Some(i)
                && nodes_of(parent, scopes@)[i] == x@ && x.lp_schema is Some,
            None => first_index(nodes_of(parent, scopes@), lp_has(column@)) is None,
        },
{
    let ghost nodes = nodes_of(parent, scopes@);
    let ghost p = lp_has(column@);
    let ghost shift: int = if parent is Some {
        1
    } else {
        0
    };
    match parent {
        Some(x) => {
            assert(nodes[0] == x@);
            if node_lp_has(x, column) {
                proof {
                    lemma_is_first(nodes, p, 0);
                }
                return Some(x);
            }
        },
        None => {},
    }
    let mut i: usize = 0;
    while i < scopes.len()
        invariant
            i <= scopes@.len(),
            nodes == nodes_of(parent, scopes@),
            p == lp_has(column@),
            shift == (if parent is Some {
                1int
            } else {
                0int
            }),
            forall|j: int| 0 <= j < i + shift ==> !p(#[trigger] nodes[j]),
        decreases scopes@.len() - i,
    {
        assert(nodes[i + shift] == scopes@[i as int]@);
        if node_lp_has(&scopes[i], column) {
            proof {
                lemma_is_first(nodes, p, i + shift);
            }
            return Some(&scopes[i]);
        }
        i = i + 1;
    }
    proof {
        lemma_no_first(nodes, p);
    }
    None
}

fn find_output<'a>(
    parent: Option<&'a ScopeSchema>,
    scopes: &'a Vec<ScopeSchema>,
    column: &Column,
) -> (r: Option<&'a ScopeSchema>)
    ensures
        match r {
            Some(x) => first_index(nodes_of(parent, scopes@), output_has(column@)) matches Some(i)
                && nodes_of(parent, scopes@)[i] == x@ && x.output is Some,
            None => first_index(nodes_of(parent, scopes@), output_has(column@)) is None,
        },
{
    let ghost nodes = nodes_of(parent, scopes@);
    let ghost p = output_has(column@);
    let ghost shift: int = if parent is Some {
        1
    } else {
        0
    };
    match parent {
        Some(x) => {
            assert(nodes[0] == x@);
            if node_output_has(x, column) {
                proof {
                    lemma_is_first(nodes, p, 0);
                }
                return Some(x);
            }
        },
        None => {},
    }
    let mut i: usize = 0;
    while i < scopes.len()
        invariant
            i <= scopes@.len(),
            nodes == nodes_of(parent, scopes@),
            p == output_has(column@),
            shift == (if parent is Some {
                1int
            } else {
                0int
            }),
            forall|j: int| 0 <= j < i + shift ==> !p(#[trigger] nodes[j]),
        decreases scopes@.len() - i,
    {
        assert(nodes[i + shift] == scopes@[i as int]@);
        if node_output_has(&scopes[i], column) {
            proof {
                lemma_is_first(nodes, p, i + shift);
            }
            return Some(&scopes[i]);
        }
        i = i + 1;
    }
    proof {
        lemma_no_first(nodes, p);
    }
    None
}

/// The parent and the nodes in scope as mathematical values.
pub open spec fn nodes_of(parent: Option<&ScopeSchema>, scopes: Seq<ScopeSchema>) -> Seq<
    ScopeSchemaView,
> {
    with_parent(
        match parent {
            Some(x) => Some(x@),
            None => None,
        },
        scope_schemas_view(scopes),
    )
}

fn fields_named(fields: &Vec<Field>, name: &str) -> (r: Vec<Field>)
    ensures
        fields_view(r@) == kept(fields_view(fields@), field_if_named(name@)),
{
    let ghost views = fields_view(fields@);
    let ghost f = field_if_named(name@);
    let mut out: Vec<Field> = Vec::new();
    let mut i: usize = 0;
    assert(fields_view(out@) =~= kept(views.take(0), f));
    while i < fields.len()
        invariant
            i <= fields@.len(),
            views == fields_view(fields@),
            f == field_if_named(name@),
            fields_view(out@) == kept(views.take(i as int), f),
        decreases fields@.len() - i,
    {
        proof {
            lemma_kept_step(views, f, i as int);
            assert(views[i as int] == fields@[i as int]@);
        }
        if same_text(fields[i].name.as_str(), name) {
            let ghost before = fields_view(out@);
            let c: Field = fields[i].copy();
            out.push(c);
            assert(fields_view(out@) =~= before.push(c@));
        }
        i = i + 1;
    }
    assert(views.take(views.len() as int) =~= views);
    out
}

fn first_annotated(fields: &Vec<Field>) -> (r: Option<usize>)
    ensures
        match r {
            Some(i) => first_index(fields_view(fields@), has_qualifier()) == Some(i as int) && i
                < fields@.len(),
            None => first_index(fields_view(fields@), has_qualifier()) is None,
        },
{
    let ghost views = fields_view(fields@);
    let ghost p = has_qualifier();
    let mut i: usize = 0;
    while i < fields.len()
        invariant
            i <= fields@.len(),
            views == fields_view(fields@),
            p == has_qualifier(),
            forall|j: int| 0 <= j < i ==> !p(#[trigger] views[j]),
        decreases fields@.len() - i,
    {
        assert(views[i as int] == fields@[i as int]@);
        match field_qualifier(&fields[i]) {
            Some(_) => {
                proof {
                    lemma_is_first(views, p, i as int);
                }
                return Some(i);
            },
            None => {},
        }
        i = i + 1;
    }
    proof {
        lemma_no_first(views, p);
    }
    None
}

fn choose_row_id_field(fields: &Vec<Field>) -> (r: Option<Field>)
    ensures
        match r {
            Some(f) => row_id_field_choice(fields_view(fields@)) == Some(f@),
            None => row_id_field_choice(fields_view(fields@)) is None,
        },
{
    let ids: Vec<Field> = fields_named(fields, ROW_ID_COL_NAME);
    assert(fields_view(ids@).len() == ids@.len());
    match first_annotated(&ids) {
        Some(i) => {
            assert(fields_view(ids@)[i as int] == ids@[i as int]@);
            Some(ids[i].copy())
        },
        None => if ids.len() == 1 {
            assert(fields_view(ids@)[0] == ids@[0]@);
            Some(ids[0].copy())
        } else {
            None
        },
    }
}

fn choose_activator_field(fields: &Vec<Field>) -> (r: Option<Field>)
    ensures
        match r {
            Some(f) => activator_field_choice(fields_view(fields@)) == Some(f@),
            None => activator_field_choice(fields_view(fields@)) is None,
        },
{
    let activators: Vec<Field> = fields_named(fields, ACTIVATOR_COL_NAME);
    assert(fields_view(activators@).len() == activators@.len());
    match first_annotated(&activators) {
        Some(i) => {
            assert(fields_view(activators@)[i as int] == activators@[i as int]@);
            Some(activators[i].copy())
        },
        None => if activators.len() > 0 {
            assert(fields_view(activators@)[0] == activators@[0]@);
            Some(activators[0].copy())
        } else {
            None
        },
    }
}

fn push_other(fields: &mut Vec<Field>, extra: Option<Field>, selected: &Field)
    ensures
        fields_view(final(fields)@) == with_other(
            fields_view(old(fields)@),
            match extra {
                Some(f) => Some(f@),
                None => None,
            },
            selected@,
        ),
{
    let ghost before = fields_view(fields@);
    match extra {
        Some(f) => {
            if !same_field_identity(&f, selected) {
                fields.push(f);
                assert(fields_view(fields@) =~= before.push(f@));
            }
        },
        None => {},
    }
}

/// The fields of a column's planned output where only shapes are planned;
/// `None` where neither the parent nor a node in scope has the column.
pub fn output_fields(
    parent: Option<&ScopeSchema>,
    scopes: &Vec<ScopeSchema>,
    column: &Column,
) -> (r: Option<Vec<Field>>)
    ensures
        match r {
            Some(fields) => output_shape(nodes_of(parent, scopes@), column@) == Some(
                fields_view(fields@),
            ),
            None => output_shape(nodes_of(parent, scopes@), column@) is None,
        },
{
    let with_output: Option<&ScopeSchema> = find_output(parent, scopes, column);
    let source: Vec<Field> = match find_lp(parent, scopes, column) {
        Some(x) => match &x.lp_schema {
            Some(s) => s.plain_fields(),
            None => return None,
        },
        None => match with_output {
            Some(x) => match &x.output {
                Some(s) => s.plain_fields(),
                None => return None,
            },
            None => return None,
        },
    };
    let index: usize = match schema_field_for_column(&source, column) {
        Some(i) => i,
        None => return None,
    };
    assert(fields_view(source@)[index as int] == source@[index as int]@);
    let selected: &Field = &source[index];
    let (row_id, activator): (Option<Field>, Option<Field>) = match with_output {
        Some(x) => match &x.output {
            Some(s) => {
                let system: Vec<Field> = s.plain_fields();
                (choose_row_id_field(&system), choose_activator_field(&system))
            },
            None => return None,
        },
        None => (choose_row_id_field(&source), choose_activator_field(&source)),
    };
    let mut fields: Vec<Field> = Vec::new();
    fields.push(selected.copy());
    assert(fields_view(fields@) =~= seq![selected@]);
    push_other(&mut fields, row_id, selected);
    if !same_text(column.name.as_str(), ACTIVATOR_COL_NAME) {
        push_other(&mut fields, activator, selected);
    }
    Some(fields)
}

/// A column expression as text: the node it is read from and the column.
pub fn display(scope_name: &str, column: &Column) -> (r: String)
    ensures
        r@ == "Column\nScope: "@ + scope_name@ + ", column: "@ + flat_name(column@),
{
    let mut out: String = join_text3("Column\nScope: ", scope_name, ", column: ");
    out.append(column.flat_name().as_str());
    out
}

// ---------------------------------------------------------------------------
// What a column stands for
// ---------------------------------------------------------------------------

/// Whether a full name ends in a name: it is that name, or that name behind a
/// qualifier and a dot.
pub open spec fn ends_in(full: Seq<char>, name: Seq<char>) -> bool {
    full == name || exists|p: Seq<char>| full == #[trigger] (p + seq!['.']) + name
}

proof fn lemma_matches_end(full: Seq<char>, name: Seq<char>)
    requires
        name_matches(full, name),
    ensures
        ends_in(full, name),
{
    names_split_at_their_last_dot(full);
    match before_last_dot(full) {
        Some(p) => {
            assert(full == (p + seq!['.']) + after_last_dot(full));
        },
        None => {},
    }
}

proof fn lemma_field_matches_end(f: FieldView, c: ColumnView)
    requires
        field_matches(f, c),
    ensures
        ends_in(f.name, c.name),
{
    match c.relation {
        Some(r) => {
            if qualified_name_matches(f.name, dotted(r), c.name) {
                reveal_strlit(".");
                assert("."@ =~= seq!['.']);
                assert(f.name == (dotted(r) + seq!['.']) + c.name);
            } else {
                lemma_matches_end(f.name, c.name);
            }
        },
        None => {
            lemma_matches_end(f.name, c.name);
        },
    }
}

/// Whether a field carries a qualifier as an annotation.
pub open spec fn annotated_with(f: FieldView, q: Seq<char>) -> bool {
    f.metadata.contains_key("tt.qualifier"@) && f.metadata["tt.qualifier"@] == q
}

/// A column is read from a field of its own name, and it is found wherever
/// there is one.
pub proof fn columns_are_read_under_their_name(fields: Seq<FieldView>, c: ColumnView)
    ensures
        field_for(fields, c) matches Some(i) ==> 0 <= i < fields.len() && ends_in(
            fields[i].name,
            c.name,
        ),
        field_for(fields, c) is None ==> forall|j: int|
            0 <= j < fields.len() ==> (#[trigger] fields[j]).name != c.name,
        c.relation is None ==> (field_for(fields, c) matches Some(i) ==> forall|j: int|
            0 <= j < i ==> (#[trigger] fields[j]).name != c.name),
{
    lemma_first_index(fields, is_column(c));
    lemma_first_index(fields, is_column(bare(c)));
    match field_for(fields, c) {
        Some(i) => {
            if first_index(fields, is_column(c)) is Some {
                assert(is_column(c)(fields[i]));
                lemma_field_matches_end(fields[i], c);
                assert forall|j: int| 0 <= j < i && c.relation is None implies (
                #[trigger] fields[j]).name != c.name by {
                    assert(!is_column(c)(fields[j]));
                }
            } else {
                assert(is_column(bare(c))(fields[i]));
                lemma_field_matches_end(fields[i], bare(c));
                assert forall|j: int| 0 <= j < i && c.relation is None implies (
                #[trigger] fields[j]).name != c.name by {
                    assert(!is_column(bare(c))(fields[j]));
                }
            }
        },
        None => {
            assert forall|j: int| 0 <= j < fields.len() implies (#[trigger] fields[j]).name
                != c.name by {
                assert(!is_column(bare(c))(fields[j]));
            }
        },
    }
}

/// A qualified column is read from its own table: where some field of its
/// name carries its qualifier, as an annotation or in front of the name, so
/// does the field that is taken.
pub proof fn qualified_columns_are_read_from_their_table(
    fields: Seq<FieldView>,
    r: Seq<Seq<char>>,
    name: Seq<char>,
    j: int,
)
    requires
        0 <= j < fields.len(),
        (fields[j].name == name && annotated_with(fields[j], dotted(r))) || fields[j].name
            == dotted(r) + "."@ + name,
    ensures
        field_for(fields, ColumnView { relation: Some(r), name }) matches Some(i) && 0 <= i
            < fields.len() && ((ends_in(fields[i].name, name) && annotated_with(
            fields[i],
            dotted(r),
        )) || fields[i].name == dotted(r) + "."@ + name),
{
    let c = ColumnView { relation: Some(r), name };
    assert(is_column(c)(fields[j]));
    lemma_first_index(fields, is_column(c));
    let i = first_index(fields, is_column(c))->0;
    assert(is_column(c)(fields[i]));
    lemma_field_matches_end(fields[i], c);
}

/// The segments of a column are the field that it is read from and the
/// lengths of its strings, and no other; none of the two is left out.
pub proof fn segments_are_those_of_the_field(fields: Seq<FieldView>, c: ColumnView, i: int)
    requires
        field_for(fields, c) == Some(i),
    ensures
        0 <= i < fields.len(),
        forall|k: int|
            0 <= k < segments_for(fields, c).len() ==> {
                let at = #[trigger] segments_for(fields, c)[k];
                &&& 0 <= at < fields.len()
                &&& fields[at].name == fields[i].name || fields[at].name == fields[i].name
                    + "__length"@
            },
        forall|at: int|
            0 <= at < fields.len() && ((#[trigger] fields[at]).name == fields[i].name
                || fields[at].name == fields[i].name + "__length"@) && fields[at].metadata
                == fields[i].metadata ==> segments_for(fields, c).contains(at),
        segments_for(fields, c).contains(i),
{
    found_columns_have_segments(fields, c);
    lemma_first_index(fields, is_column(c));
    lemma_first_index(fields, is_column(bare(c)));
    let p = is_segment_of_field(fields[i]);
    lemma_indices_where(fields, p);
    assert forall|at: int|
        0 <= at < fields.len() && ((#[trigger] fields[at]).name == fields[i].name || fields[at].name
            == fields[i].name + "__length"@) && fields[at].metadata
            == fields[i].metadata implies segments_for(fields, c).contains(at) by {
        lemma_index_found(fields, p, at);
    }
}

/// A column is bound to the first table in scope that has a field of its
/// name: the result is over the rows of that table, holds nothing but its
/// columns, and holds the field that the column is read from.
pub proof fn columns_are_bound_to_the_first_table(
    scopes: Seq<ScopeView>,
    c: ColumnView,
) -> (k: int)
    requires
        bound_table(scopes, None, c) is Some,
    ensures
        0 <= k < scopes.len(),
        scopes[k].table is Some,
        bound_table(scopes, None, c)->0.log_size == scopes[k].table->0.log_size,
        forall|i: int|
            0 <= i < bound_table(scopes, None, c)->0.cols.len()
                ==> scopes[k].table->0.cols.contains(
                #[trigger] bound_table(scopes, None, c)->0.cols[i],
            ),
        exists|i: int|
            0 <= i < bound_table(scopes, None, c)->0.cols.len() && ends_in(
                (#[trigger] bound_table(scopes, None, c)->0.cols[i]).field.name,
                c.name,
            ),
        forall|j: int|
            0 <= j < k ==> ((#[trigger] scopes[j]).table matches Some(t) ==> forall|i: int|
                0 <= i < t.cols.len() ==> (#[trigger] t.cols[i]).field.name != c.name),
{
    lemma_first_index(scopes, offers(c));
    let k = first_index(scopes, offers(c))->0;
    assert(offers(c)(scopes[k]));
    let t = scopes[k].table->0;
    let fields = col_fields(t.cols);
    let at = field_for(fields, c)->0;
    let segments = segments_for(fields, c);
    columns_are_read_under_their_name(fields, c);
    segments_are_those_of_the_field(fields, c, at);
    subtables_hold_the_selection_and_the_system_columns(t, segments);
    let n = choose|n: int| 0 <= n < segments.len() && segments[n] == at;
    let cols = subtable(t, segments).cols;
    assert(holds_field(cols, t.cols[segments[n]].field));
    let m = choose|m: int| 0 <= m < cols.len() && (#[trigger] cols[m]).field == t.cols[at].field;
    assert(fields[at] == t.cols[at].field);
    assert(ends_in(cols[m].field.name, c.name));
    assert forall|j: int| 0 <= j < k implies ((#[trigger] scopes[j]).table matches Some(u)
        ==> forall|i: int|
        0 <= i < u.cols.len() ==> (#[trigger] u.cols[i]).field.name != c.name) by {
        assert(!offers(c)(scopes[j]));
        match scopes[j].table {
            Some(u) => {
                columns_are_read_under_their_name(col_fields(u.cols), c);
                assert forall|i: int| 0 <= i < u.cols.len() implies (
                #[trigger] u.cols[i]).field.name != c.name by {
                    assert(col_fields(u.cols)[i] == u.cols[i].field);
                }
            },
            None => {},
        }
    }
    k
}

/// An earlier binding is used only where it still names the column: it is of
/// a table in scope under the identifier that it was made for, and that
/// table's schema has the column at the first of the positions.
pub proof fn kept_bindings_still_name_the_column(
    scopes: Seq<ScopeView>,
    b: BindingView,
    c: ColumnView,
    k: int,
)
    requires
        cached_scope(scopes, Some(b), c) == Some(k),
    ensures
        0 <= k < scopes.len(),
        scopes[k].id == b.scope,
        scopes[k].table matches Some(t) && t.schema matches Some(s) && b.indices.len() > 0
            && b.indices[0] < s.fields.len() && ends_in(s.fields[b.indices[0] as int].name, c.name),
{
    lemma_first_index(scopes, has_id(b.scope));
    let t = scopes[k].table->0;
    lemma_field_matches_end(t.schema->0.fields[b.indices[0] as int], c);
}

/// A column expression plans its own column first, under its own name, and
/// behind it only system columns of the schema that it was found in.
pub proof fn columns_are_planned_with_the_system_columns(s: Seq<QFieldView>, c: ColumnView, k: int)
    requires
        c.name != "__activator__"@,
        0 <= k < output_projection(s, c).len(),
    ensures
        output_projection(s, c)[0] matches ExprView::Column(x) && x.name == c.name,
        k > 0 ==> refers_to(s, output_projection(s, c)[k], "__activator__"@) || refers_to(
            s,
            output_projection(s, c)[k],
            "__row_id__"@,
        ),
{
    let column = seq![ExprView::Column(resolved_column(s, c))];
    let a = with_activators(s, column);
    let r = output_projection(s, c);
    the_activators_are_all_that_is_added(s, column);
    the_row_number_is_all_that_is_added(s, a);
    assert(a[0] == a.take(1)[0]);
    assert(resolved_column(s, c).name == c.name);
    if r != a {
        let at = choose|at: int|
            0 <= at < r.len() && r.remove(at) == a && refers_to(
                s,
                #[trigger] r[at],
                "__row_id__"@,
            ) && (at == a.len() || (a[at] matches ExprView::Column(x) && x.name
                == "__activator__"@));
        assert(at != 0);
        assert(r.remove(at)[0] == r[0]);
        if k < at {
            assert(r.remove(at)[k] == r[k]);
        } else if k > at {
            assert(r.remove(at)[k - 1] == r[k]);
            if k - 1 == 0 {
                assert(false);
            }
        }
    }
}

/// The planned shape of a column begins with the field that the column is read
/// from, and adds at most a row number and an activator.
pub proof fn shapes_begin_with_the_column(nodes: Seq<ScopeSchemaView>, c: ColumnView, k: int)
    requires
        output_shape(nodes, c) matches Some(shape) && 0 <= k < shape.len(),
    ensures
        ends_in(output_shape(nodes, c)->0[0].name, c.name),
        output_shape(nodes, c)->0.len() <= 3,
        k > 0 ==> output_shape(nodes, c)->0[k].name == "__row_id__"@ || output_shape(
            nodes,
            c,
        )->0[k].name == "__activator__"@,
        k > 0 && c.name == "__activator__"@ ==> output_shape(nodes, c)->0[k].name == "__row_id__"@,
{
    let source = source_fields(nodes, c)->0;
    columns_are_read_under_their_name(source, c);
    let system = system_fields(nodes, c)->0;
    lemma_choices_are_named(system);
}

proof fn lemma_choices_are_named(fields: Seq<FieldView>)
    ensures
        row_id_field_choice(fields) matches Some(f) ==> f.name == "__row_id__"@
            && fields.contains(f),
        activator_field_choice(fields) matches Some(f) ==> f.name == "__activator__"@
            && fields.contains(f),
{
    let ids = kept(fields, field_if_named(ROW_ID_COL_NAME@));
    let activators = kept(fields, field_if_named(ACTIVATOR_COL_NAME@));
    lemma_first_index(ids, has_qualifier());
    lemma_first_index(activators, has_qualifier());
    if row_id_field_choice(fields) is Some {
        let k = match first_index(ids, has_qualifier()) {
            Some(i) => i,
            None => 0,
        };
        let i = kept_items_come_from_the_list(fields, field_if_named(ROW_ID_COL_NAME@), k);
        assert(fields[i] == ids[k]);
    }
    if activator_field_choice(fields) is Some {
        let k = match first_index(activators, has_qualifier()) {
            Some(i) => i,
            None => 0,
        };
        let i = kept_items_come_from_the_list(fields, field_if_named(ACTIVATOR_COL_NAME@), k);
        assert(fields[i] == activators[k]);
    }
}

/// Whether a schema has a field of a name.
pub open spec fn has_field_named(s: Seq<QFieldView>, name: Seq<char>) -> bool {
    exists|k: int| 0 <= k < s.len() && (#[trigger] s[k]).field.name == name
}

/// A schema has an unqualified column wherever it has a field of its name, and
/// a qualified one only where a field is of its name and under its qualifier.
pub proof fn schemas_have_columns_under_their_qualifier(s: Seq<QFieldView>, c: ColumnView)
    ensures
        c.relation is None && has_field_named(s, c.name) ==> contains_column(s, c),
        contains_column(s, c) ==> exists|k: int|
            0 <= k < s.len() && ends_in((#[trigger] s[k]).field.name, c.name) && (
            c.relation matches Some(r) ==> s[k].qualifier == Some(r) || s[k].field.name == dotted(r)
                + "."@ + c.name),
        forall|k: int|
            0 <= k < s.len() && (#[trigger] s[k]).field.name == c.name && s[k].qualifier
                == c.relation ==> contains_column(s, c),
{
    let p = is_schema_column(c);
    lemma_first_index(s, p);
    match first_index(s, p) {
        Some(k) => {
            assert(p(s[k]));
            let bare_match = match c.relation {
                Some(r) => name_matches(s[k].field.name, c.name) && s[k].qualifier == Some(r),
                None => true,
            };
            if bare_match {
                lemma_matches_end(s[k].field.name, c.name);
            } else {
                let r = c.relation->0;
                reveal_strlit(".");
                assert("."@ =~= seq!['.']);
                assert(s[k].field.name == (dotted(r) + seq!['.']) + c.name);
            }
            assert(ends_in(s[k].field.name, c.name));
        },
        None => {
            assert forall|k: int|
                0 <= k < s.len() && (#[trigger] s[k]).field.name == c.name && s[k].qualifier
                    == c.relation implies contains_column(s, c) by {
                assert(!p(s[k]));
            }
            if c.relation is None && has_field_named(s, c.name) {
                let k = choose|k: int| 0 <= k < s.len() && (#[trigger] s[k]).field.name == c.name;
                assert(!p(s[k]));
            }
        },
    }
}

/// A column is read from a schema in scope that has it: that of the first
/// operator whose own schema does, and only where there is none a planned
/// output.
pub proof fn columns_are_read_from_the_first_schema(
    nodes: Seq<ScopeSchemaView>,
    c: ColumnView,
) -> (i: int)
    requires
        source_fields(nodes, c) is Some,
    ensures
        0 <= i < nodes.len(),
        (nodes[i].lp_schema matches Some(s) && contains_column(s, c) && source_fields(nodes, c)
            == Some(plain_fields(s)) && forall|j: int|
            0 <= j < i ==> ((#[trigger] nodes[j]).lp_schema matches Some(t) ==> !contains_column(
                t,
                c,
            ))) || (nodes[i].output matches Some(s) && contains_column(s, c) && source_fields(
            nodes,
            c,
        ) == Some(plain_fields(s)) && forall|j: int|
            0 <= j < nodes.len() ==> ((#[trigger] nodes[j]).lp_schema matches Some(t)
                ==> !contains_column(t, c))),
{
    lemma_first_index(nodes, lp_has(c));
    lemma_first_index(nodes, output_has(c));
    match first_index(nodes, lp_has(c)) {
        Some(i) => {
            assert(lp_has(c)(nodes[i]));
            assert forall|j: int| 0 <= j < i implies ((#[trigger] nodes[j]).lp_schema matches Some(
                t,
            ) ==> !contains_column(t, c)) by {
                assert(!lp_has(c)(nodes[j]));
            }
            i
        },
        None => {
            let i = first_index(nodes, output_has(c))->0;
            assert(output_has(c)(nodes[i]));
            assert forall|j: int| 0 <= j < nodes.len() implies ((
            #[trigger] nodes[j]).lp_schema matches Some(t) ==> !contains_column(t, c)) by {
                assert(!lp_has(c)(nodes[j]));
            }
            i
        },
    }
}

/// The parent is asked before the nodes in scope, which stay in order.
pub proof fn the_parent_is_asked_first(parent: ScopeSchemaView, scopes: Seq<ScopeSchemaView>)
    ensures
        with_parent(Some(parent), scopes).len() == scopes.len() + 1,
        with_parent(Some(parent), scopes)[0] == parent,
        with_parent(Some(parent), scopes).skip(1) == scopes,
        with_parent(None, scopes) == scopes,
{
    assert(with_parent(Some(parent), scopes).skip(1) =~= scopes);
}

/// A system column that is selected is not added to its own shape a second
/// time.
pub proof fn shapes_do_not_repeat_the_column(nodes: Seq<ScopeSchemaView>, c: ColumnView, k: int)
    requires
        output_shape(nodes, c) matches Some(shape) && 0 < k < shape.len(),
    ensures
        ({
            let f = output_shape(nodes, c)->0[k];
            let selected = output_shape(nodes, c)->0[0];
            f.name != selected.name || f.metadata != selected.metadata
        }),
{
}

} // verus!
