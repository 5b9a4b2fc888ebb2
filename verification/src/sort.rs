//! `ORDER BY`: the keys that can be proved, and the binding of the sorted
//! keys to the columns of the output itself.
use crate::aggregate::qualifier_text;
use crate::df_schema::{
    column_if_named, column_of, columns_named, looked_up_field, lookup_keeps_name_and_qualifier,
    DfSchema, QFieldView,
};
use crate::hints::{
    append_row_id_expr_if_present, is_activator_expr, row_id_sort, row_id_sort_exprs, with_row_id,
};
use crate::plan::{
    dotted, exprs_view, flat_name, sorts_view, Column, ColumnView, Expr, ExprView, SchemaView,
    SortExpr, SortView,
};
use crate::resolve::{resolve_sorts, resolved_expr, resolved_sorts, Resolution};
use crate::schema::{fields_view, same_text_opt, text_opt, DataType, Field, FieldView, TypeView};
use crate::seqs::{
    first_index, indices_where, ints, join_all, joined, kept, lemma_first_index, lemma_index_found,
    lemma_indices_step, lemma_indices_where, lemma_is_first, lemma_kept_step, lemma_no_first,
    positions_increase, texts_view,
};
use crate::table::{
    cols_insert, cols_view, field_index, field_qualifier, insert_col, is_system_column, is_system_name,
    lemma_field_index, qualifier_of, table_metadata, table_with, within, ColView, Party, Table,
    TableView, TrackedColumn, ACTIVATOR_COL_NAME, ROW_ID_COL_NAME,
};
use crate::text::{decimal, decimal_text, join_text3, same_text};
use vstd::prelude::*;
use vstd::string::*;

verus! {

/// Label of the input of the row permutation.
pub const INPUT_LABEL: &'static str = "__input__";

/// Label of the output of the row permutation.
pub const OUTPUT_LABEL: &'static str = "__output__";

/// Label of the keys of the output.
pub const OUTPUT_SORT_EXPRS: &'static str = "__output_sort_exprs__";

/// A sort: its keys, the schema of its input and how many rows it keeps.
#[derive(Debug)]
pub struct Sort {
    pub expr: Vec<SortExpr>,
    pub input: DfSchema,
    pub fetch: Option<usize>,
}

/// Mathematical counterpart of [`Sort`].
#[verifier::ext_equal]
pub struct SortNodeView {
    pub expr: Seq<SortView>,
    pub input: Seq<QFieldView>,
    pub fetch: Option<usize>,
}

impl Sort {
    /// The sort as a mathematical value.
    pub open spec fn view(&self) -> SortNodeView {
        SortNodeView { expr: sorts_view(self.expr@), input: self.input@, fetch: self.fetch }
    }
}

/// What keeps a key from being proved.
#[derive(Debug, Clone, Copy, PartialEq, Eq, Structural)]
pub enum KeyFault {
    /// It is no direct column.
    NotColumn,
    /// It is a system column.
    SystemColumn,
    /// It does not resolve uniquely in the input.
    Unresolved,
    /// It may be null.
    Nullable,
    /// Its type has no bounded integer encoding.
    UnsupportedType,
    /// Its name holds a dot.
    DottedName,
    /// Another key has the same name.
    DuplicateName,
}

/// What keeps a key from being taken from the output.
#[derive(Debug, Clone, Copy, PartialEq, Eq, Structural)]
pub enum OutputFault {
    /// It is no direct column.
    NotColumn,
    /// It does not resolve uniquely in the input.
    Unresolved,
    /// The output has this many columns for it, not one.
    Found(usize),
    /// The output's column may be null.
    Nullable,
    /// The output's column has a type without a bounded integer encoding.
    UnsupportedType,
    /// The output's column has another type than the key.
    WrongType,
}

/// A sort that cannot be proved or wired.
#[derive(Debug, Clone, Copy, PartialEq, Eq, Structural)]
pub enum SortError {
    NoKeys,
    EmbeddedFetch,
    Key { index: usize, fault: KeyFault },
    Output { index: usize, fault: OutputFault },
    KeyCount,
    MissingActivator,
    MultipleActivators,
    ActivatorNotBoolean,
    MissingInputTable,
    MissingOutputTable,
    MissingPlan,
    MissingSortKeys,
    MissingOrderInput,
    MissingOrderOutput,
    HintKeys { actual: usize, expected: usize },
    HintActivator,
}

// ---------------------------------------------------------------------------
// Keys that can be proved
// ---------------------------------------------------------------------------

/// Whether the values of a type are bounded integers.
pub open spec fn supported_type(t: TypeView) -> bool {
    match t {
        TypeView::Int8 | TypeView::Int16 | TypeView::Int32 | TypeView::Int64 | TypeView::UInt8
        | TypeView::UInt16 | TypeView::UInt32 | TypeView::UInt64 | TypeView::Date32 => true,
        _ => false,
    }
}

/// Whether the values of a type are bounded integers.
pub fn is_supported_sort_type(data_type: &DataType) -> (r: bool)
    ensures
        r == supported_type(data_type@),
{
    match data_type {
        DataType::Int8 => true,
        DataType::Int16 => true,
        DataType::Int32 => true,
        DataType::Int64 => true,
        DataType::UInt8 => true,
        DataType::UInt16 => true,
        DataType::UInt32 => true,
        DataType::UInt64 => true,
        DataType::Date32 => true,
        _ => false,
    }
}

/// Whether a key before `i` has the given name.
pub open spec fn named_before(expr: Seq<SortView>, i: int, name: Seq<char>) -> bool {
    exists|j: int|
        0 <= j < i && (#[trigger] expr[j]).expr is Column && expr[j].expr->Column_0.name == name
}

/// What keeps the key at `i` from being proved, where those before it can be.
pub open spec fn key_fault(sort: SortNodeView, i: int) -> Option<KeyFault> {
    match sort.expr[i].expr {
        ExprView::Column(c) => if is_system_name(c.name) {
            Some(KeyFault::SystemColumn)
        } else {
            match looked_up_field(sort.input, c) {
                Err(_) => Some(KeyFault::Unresolved),
                Ok(k) => {
                    let f = sort.input[k].field;
                    if f.nullable {
                        Some(KeyFault::Nullable)
                    } else if !supported_type(f.data_type) {
                        Some(KeyFault::UnsupportedType)
                    } else if c.name.contains('.') {
                        Some(KeyFault::DottedName)
                    } else if named_before(sort.expr, i, c.name) {
                        Some(KeyFault::DuplicateName)
                    } else {
                        None
                    }
                },
            }
        },
        _ => Some(KeyFault::NotColumn),
    }
}

/// What is wrong with the first `n` keys.
pub open spec fn keys_error(sort: SortNodeView, n: nat) -> Option<SortError>
    decreases n,
{
    if n == 0 {
        None
    } else {
        match keys_error(sort, (n - 1) as nat) {
            Some(e) => Some(e),
            None => match key_fault(sort, n - 1) {
                Some(fault) => Some(SortError::Key { index: (n - 1) as usize, fault }),
                None => None,
            },
        }
    }
}

/// What keeps a sort from being proved: the first of these that holds.
pub open spec fn sort_error(sort: SortNodeView) -> Option<SortError> {
    if sort.expr.len() == 0 {
        Some(SortError::NoKeys)
    } else if sort.fetch is Some {
        Some(SortError::EmbeddedFetch)
    } else {
        keys_error(sort, sort.expr.len())
    }
}

fn holds_dot(name: &str) -> (r: bool)
    ensures
        r == name@.contains('.'),
{
    let n: usize = name.unicode_len();
    let mut i: usize = 0;
    while i < n
        invariant
            i <= n,
            n == name@.len(),
            forall|j: int| 0 <= j < i ==> name@[j] != '.',
        decreases n - i,
    {
        if name.get_char(i) == '.' {
            assert(name@[i as int] == '.');
            return true;
        }
        i = i + 1;
    }
    false
}

fn is_named_before(expr: &Vec<SortExpr>, i: usize, name: &str) -> (r: bool)
    requires
        i <= expr@.len(),
    ensures
        r == named_before(sorts_view(expr@), i as int, name@),
{
    let ghost views = sorts_view(expr@);
    let mut j: usize = 0;
    while j < i
        invariant
            j <= i <= expr@.len(),
            views == sorts_view(expr@),
            forall|k: int|
                0 <= k < j ==> !((#[trigger] views[k]).expr is Column
                    && views[k].expr->Column_0.name == name@),
        decreases i - j,
    {
        assert(views[j as int] == expr@[j as int]@);
        match &expr[j].expr {
            Expr::Column(c) => {
                if same_text(c.name.as_str(), name) {
                    assert(views[j as int].expr is Column);
                    return true;
                }
            },
            _ => {},
        }
        j = j + 1;
    }
    false
}

fn find_key_fault(sort: &Sort, i: usize) -> (r: Option<KeyFault>)
    requires
        i < sort.expr@.len(),
    ensures
        r == key_fault(sort@, i as int),
{
    assert(sort@.expr[i as int] == sort.expr@[i as int]@);
    let column: &Column = match &sort.expr[i].expr {
        Expr::Column(c) => c,
        _ => return Some(KeyFault::NotColumn),
    };
    if is_system_column(column.name.as_str()) {
        return Some(KeyFault::SystemColumn);
    }
    let k: usize = match sort.input.look_up(column) {
        Ok(k) => k,
        Err(_) => return Some(KeyFault::Unresolved),
    };
    assert(sort@.input[k as int] == sort.input.fields@[k as int]@);
    let field: &Field = &sort.input.fields[k].field;
    if field.nullable {
        Some(KeyFault::Nullable)
    } else if !is_supported_sort_type(&field.data_type) {
        Some(KeyFault::UnsupportedType)
    } else if holds_dot(column.name.as_str()) {
        Some(KeyFault::DottedName)
    } else if is_named_before(&sort.expr, i, column.name.as_str()) {
        Some(KeyFault::DuplicateName)
    } else {
        None
    }
}

/// Accepts the sorts whose keys are tied to columns of the output: direct,
/// distinct, non-null columns of bounded integer types, without an embedded
/// fetch. Everything else is refused before any proof work.
pub fn validate_sort(sort: &Sort) -> (r: Result<(), SortError>)
    ensures
        match r {
            Ok(()) => sort_error(sort@) is None,
            Err(e) => sort_error(sort@) == Some(e),
        },
{
    if sort.expr.len() == 0 {
        return Err(SortError::NoKeys);
    }
    match sort.fetch {
        Some(_) => return Err(SortError::EmbeddedFetch),
        None => {},
    }
    let mut i: usize = 0;
    while i < sort.expr.len()
        invariant
            i <= sort.expr@.len(),
            sort.expr@.len() > 0,
            sort@.fetch is None,
            keys_error(sort@, i as nat) is None,
        decreases sort.expr@.len() - i,
    {
        match find_key_fault(sort, i) {
            Some(fault) => {
                proof {
                    lemma_first_key_error(sort@, (i + 1) as nat, sort@.expr.len());
                }
                return Err(SortError::Key { index: i, fault });
            },
            None => {},
        }
        i = i + 1;
    }
    Ok(())
}

/// The first faulty key decides.
proof fn lemma_first_key_error(sort: SortNodeView, n: nat, m: nat)
    requires
        n <= m,
        keys_error(sort, n) is Some,
    ensures
        keys_error(sort, m) == keys_error(sort, n),
    decreases m,
{
    if n < m {
        lemma_first_key_error(sort, n, (m - 1) as nat);
    }
}

/// Every key of an accepted sort is a direct column without a fault.
pub proof fn accepted_keys_are_faultless(sort: SortNodeView, i: int)
    requires
        sort_error(sort) is None,
        0 <= i < sort.expr.len(),
    ensures
        key_fault(sort, i) is None,
{
    if keys_error(sort, (i + 1) as nat) is Some {
        lemma_first_key_error(sort, (i + 1) as nat, sort.expr.len());
    }
}

/// The keys of an accepted sort have pairwise different names.
pub proof fn accepted_keys_are_distinct(sort: SortNodeView, i: int, j: int)
    requires
        sort_error(sort) is None,
        0 <= i < j < sort.expr.len(),
    ensures
        sort.expr[i].expr is Column,
        sort.expr[j].expr is Column,
        sort.expr[i].expr->Column_0.name != sort.expr[j].expr->Column_0.name,
{
    accepted_keys_are_faultless(sort, i);
    accepted_keys_are_faultless(sort, j);
}

// ---------------------------------------------------------------------------
// Keys of the output
// ---------------------------------------------------------------------------

/// The field of the input that a key resolves to.
pub open spec fn canonical_key(sort: SortNodeView, i: int) -> Result<QFieldView, OutputFault> {
    match sort.expr[i].expr {
        ExprView::Column(c) => match looked_up_field(sort.input, c) {
            Ok(k) => Ok(sort.input[k]),
            Err(_) => Err(OutputFault::Unresolved),
        },
        _ => Err(OutputFault::NotColumn),
    }
}

/// Satisfied by the data columns that are the given column: of its name, and
/// annotated with its qualifier, or with none where it has none.
pub open spec fn is_key_column(c: ColumnView) -> spec_fn(ColView) -> bool {
    |x: ColView|
        !is_system_name(x.field.name) && x.field.name == c.name && qualifier_of(x.field)
            == qualifier_text(c)
}

/// Position of the output column of the key at `i`.
pub open spec fn output_key(sort: SortNodeView, cols: Seq<ColView>, i: int) -> Result<
    int,
    OutputFault,
> {
    match canonical_key(sort, i) {
        Err(e) => Err(e),
        Ok(q) => {
            let found = indices_where(cols, is_key_column(column_of(q)));
            if found.len() != 1 {
                Err(OutputFault::Found(found.len() as usize))
            } else {
                let f = cols[found[0]].field;
                if f.nullable {
                    Err(OutputFault::Nullable)
                } else if !supported_type(f.data_type) {
                    Err(OutputFault::UnsupportedType)
                } else if f.data_type != q.field.data_type {
                    Err(OutputFault::WrongType)
                } else {
                    Ok(found[0])
                }
            }
        },
    }
}

/// The output columns of the first `n` keys.
pub open spec fn output_keys(sort: SortNodeView, cols: Seq<ColView>, n: nat) -> Result<
    Seq<ColView>,
    SortError,
>
    decreases n,
{
    if n == 0 {
        Ok(Seq::empty())
    } else {
        match output_keys(sort, cols, (n - 1) as nat) {
            Err(e) => Err(e),
            Ok(before) => match output_key(sort, cols, n - 1) {
                Err(fault) => Err(SortError::Output { index: (n - 1) as usize, fault }),
                Ok(k) => Ok(cols_insert(before, cols[k].field, cols[k].poly)),
            },
        }
    }
}

/// Satisfied by the activator columns.
pub open spec fn is_activator_col() -> spec_fn(ColView) -> bool {
    |x: ColView| x.field.name == ACTIVATOR_COL_NAME@
}

/// The keys that the sortedness check is handed: for each key the output's
/// own column, and the output's own activator.
pub open spec fn sort_keys(sort: SortNodeView, output: TableView) -> Result<TableView, SortError> {
    match output_keys(sort, output.cols, sort.expr.len()) {
        Err(e) => Err(e),
        Ok(keys) => {
            let activators = indices_where(output.cols, is_activator_col());
            if keys.len() != sort.expr.len() {
                Err(SortError::KeyCount)
            } else if activators.len() == 0 {
                Err(SortError::MissingActivator)
            } else if activators.len() > 1 {
                Err(SortError::MultipleActivators)
            } else {
                let a = output.cols[activators[0]];
                if a.field.data_type != TypeView::Boolean {
                    Err(SortError::ActivatorNotBoolean)
                } else {
                    Ok(
                        table_with(
                            cols_insert(keys, a.field, a.poly),
                            table_metadata(output),
                            output.log_size,
                        ),
                    )
                }
            }
        },
    }
}

fn find_key_columns(table: &Table, column: &Column) -> (r: Vec<usize>)
    ensures
        ints(r@) == indices_where(table@.cols, is_key_column(column@)),
        within(r@, table.cols@.len()),
{
    let ghost p = is_key_column(column@);
    let qualifier: Option<String> = match &column.relation {
        Some(t) => Some(t.to_text()),
        None => None,
    };
    let mut out: Vec<usize> = Vec::new();
    let mut i: usize = 0;
    assert(ints(out@) =~= indices_where(table@.cols.take(0), p));
    while i < table.cols.len()
        invariant
            i <= table.cols@.len(),
            p == is_key_column(column@),
            text_opt(qualifier) == qualifier_text(column@),
            ints(out@) == indices_where(table@.cols.take(i as int), p),
            within(out@, table.cols@.len()),
        decreases table.cols@.len() - i,
    {
        proof {
            lemma_indices_step(table@.cols, p, i as int);
            assert(table@.cols[i as int] == table.cols@[i as int]@);
        }
        let field: &Field = &table.cols[i].field;
        if !is_system_column(field.name.as_str()) && same_text(
            field.name.as_str(),
            column.name.as_str(),
        ) && same_text_opt(&field_qualifier(field), &qualifier) {
            let ghost before = ints(out@);
            out.push(i);
            assert(ints(out@) =~= before.push(i as int));
        }
        i = i + 1;
    }
    assert(table@.cols.take(table@.cols.len() as int) =~= table@.cols);
    out
}

fn find_activators(table: &Table) -> (r: Vec<usize>)
    ensures
        ints(r@) == indices_where(table@.cols, is_activator_col()),
        within(r@, table.cols@.len()),
{
    let ghost p = is_activator_col();
    let mut out: Vec<usize> = Vec::new();
    let mut i: usize = 0;
    assert(ints(out@) =~= indices_where(table@.cols.take(0), p));
    while i < table.cols.len()
        invariant
            i <= table.cols@.len(),
            p == is_activator_col(),
            ints(out@) == indices_where(table@.cols.take(i as int), p),
            within(out@, table.cols@.len()),
        decreases table.cols@.len() - i,
    {
        proof {
            lemma_indices_step(table@.cols, p, i as int);
            assert(table@.cols[i as int] == table.cols@[i as int]@);
        }
        if same_text(table.cols[i].field.name.as_str(), ACTIVATOR_COL_NAME) {
            let ghost before = ints(out@);
            out.push(i);
            assert(ints(out@) =~= before.push(i as int));
        }
        i = i + 1;
    }
    assert(table@.cols.take(table@.cols.len() as int) =~= table@.cols);
    out
}

fn find_output_key(sort: &Sort, output: &Table, i: usize) -> (r: Result<usize, OutputFault>)
    requires
        i < sort.expr@.len(),
    ensures
        match r {
            Ok(k) => output_key(sort@, output@.cols, i as int) == Ok::<int, OutputFault>(k as int)
                && k < output.cols@.len(),
            Err(e) => output_key(sort@, output@.cols, i as int) == Err::<int, OutputFault>(e),
        },
{
    assert(sort@.expr[i as int] == sort.expr@[i as int]@);
    let requested: &Column = match &sort.expr[i].expr {
        Expr::Column(c) => c,
        _ => return Err(OutputFault::NotColumn),
    };
    let k: usize = match sort.input.look_up(requested) {
        Ok(k) => k,
        Err(_) => return Err(OutputFault::Unresolved),
    };
    assert(sort@.input[k as int] == sort.input.fields@[k as int]@);
    let column: Column = sort.input.fields[k].column();
    let found: Vec<usize> = find_key_columns(output, &column);
    assert(ints(found@).len() == found@.len());
    if found.len() != 1 {
        return Err(OutputFault::Found(found.len()));
    }
    let at: usize = found[0];
    assert(ints(found@)[0] == at as int);
    assert(output@.cols[at as int] == output.cols@[at as int]@);
    let field: &Field = &output.cols[at].field;
    if field.nullable {
        Err(OutputFault::Nullable)
    } else if !is_supported_sort_type(&field.data_type) {
        Err(OutputFault::UnsupportedType)
    } else if !field.data_type.same(&sort.input.fields[k].field.data_type) {
        Err(OutputFault::WrongType)
    } else {
        Ok(at)
    }
}

/// The first key that cannot be taken from the output decides.
proof fn lemma_first_output_error(sort: SortNodeView, cols: Seq<ColView>, n: nat, m: nat)
    requires
        n <= m,
        output_keys(sort, cols, n) is Err,
    ensures
        output_keys(sort, cols, m) == output_keys(sort, cols, n),
    decreases m,
{
    if n < m {
        lemma_first_output_error(sort, cols, n, (m - 1) as nat);
    }
}

/// The keys that the sortedness check is handed. They are selected from the
/// output itself, never from a separately computed table.
pub fn build_output_sort_keys(output: &Table, sort: &Sort) -> (r: Result<Table, SortError>)
    ensures
        match r {
            Ok(t) => sort_keys(sort@, output@) == Ok::<TableView, SortError>(t@),
            Err(e) => sort_keys(sort@, output@) == Err::<TableView, SortError>(e),
        },
{
    let mut cols: Vec<TrackedColumn> = Vec::new();
    let mut i: usize = 0;
    assert(cols_view(cols@) =~= Seq::<ColView>::empty());
    while i < sort.expr.len()
        invariant
            i <= sort.expr@.len(),
            output_keys(sort@, output@.cols, i as nat) == Ok::<Seq<ColView>, SortError>(
                cols_view(cols@),
            ),
        decreases sort.expr@.len() - i,
    {
        match find_output_key(sort, output, i) {
            Ok(k) => {
                assert(output@.cols[k as int] == output.cols@[k as int]@);
                insert_col(&mut cols, output.cols[k].field.copy(), output.cols[k].poly);
            },
            Err(fault) => {
                proof {
                    lemma_first_output_error(
                        sort@,
                        output@.cols,
                        (i + 1) as nat,
                        sort@.expr.len(),
                    );
                }
                return Err(SortError::Output { index: i, fault });
            },
        }
        i = i + 1;
    }
    assert(cols_view(cols@).len() == cols@.len());
    if cols.len() != sort.expr.len() {
        return Err(SortError::KeyCount);
    }
    let activators: Vec<usize> = find_activators(output);
    assert(ints(activators@).len() == activators@.len());
    if activators.len() == 0 {
        return Err(SortError::MissingActivator);
    }
    if activators.len() > 1 {
        return Err(SortError::MultipleActivators);
    }
    let at: usize = activators[0];
    assert(ints(activators@)[0] == at as int);
    assert(output@.cols[at as int] == output.cols@[at as int]@);
    let active: &TrackedColumn = &output.cols[at];
    let boolean: bool = match &active.field.data_type {
        DataType::Boolean => true,
        _ => false,
    };
    if !boolean {
        return Err(SortError::ActivatorNotBoolean);
    }
    insert_col(&mut cols, active.field.copy(), active.poly);
    Ok(Table::with_metadata(cols, output.metadata(), output.log_size))
}

proof fn lemma_output_keys_come_from(sort: SortNodeView, cols: Seq<ColView>, n: nat)
    ensures
        output_keys(sort, cols, n) matches Ok(keys) ==> forall|i: int|
            0 <= i < keys.len() ==> cols.contains(#[trigger] keys[i]),
    decreases n,
{
    if n > 0 {
        lemma_output_keys_come_from(sort, cols, (n - 1) as nat);
        match (output_keys(sort, cols, (n - 1) as nat), output_key(sort, cols, n - 1)) {
            (Ok(before), Ok(k)) => {
                let q = canonical_key(sort, n - 1)->Ok_0;
                lemma_indices_where(cols, is_key_column(column_of(q)));
                let c = cols[k];
                assert(cols.contains(c));
                lemma_field_index(before, c.field);
                let keys = cols_insert(before, c.field, c.poly);
                assert forall|i: int| 0 <= i < keys.len() implies cols.contains(
                    #[trigger] keys[i],
                ) by {
                    if keys[i] != c {
                        assert(keys[i] == before[i]);
                    }
                }
            },
            _ => {},
        }
    }
}

/// Everything that the sortedness check is handed is a column of the output,
/// polynomial for polynomial: an independently sorted helper cannot take the
/// place of an output key.
pub proof fn sort_keys_are_output_columns(sort: SortNodeView, output: TableView)
    ensures
        sort_keys(sort, output) matches Ok(t) ==> forall|i: int|
            0 <= i < t.cols.len() ==> output.cols.contains(#[trigger] t.cols[i]),
{
    match sort_keys(sort, output) {
        Ok(t) => {
            lemma_output_keys_come_from(sort, output.cols, sort.expr.len());
            let keys = output_keys(sort, output.cols, sort.expr.len())->Ok_0;
            lemma_indices_where(output.cols, is_activator_col());
            let a = output.cols[indices_where(output.cols, is_activator_col())[0]];
            assert(output.cols.contains(a));
            lemma_field_index(keys, a.field);
            assert forall|i: int| 0 <= i < t.cols.len() implies output.cols.contains(
                #[trigger] t.cols[i],
            ) by {
                if t.cols[i] != a {
                    assert(t.cols[i] == keys[i]);
                }
            }
        },
        Err(_) => {},
    }
}

// ---------------------------------------------------------------------------
// Row numbers
// ---------------------------------------------------------------------------

/// The columns other than the row number, each field once, among the first
/// `n`.
pub open spec fn cols_without_row_id(cols: Seq<ColView>, n: nat) -> Seq<ColView>
    decreases n,
{
    if n == 0 {
        Seq::empty()
    } else {
        let before = cols_without_row_id(cols, (n - 1) as nat);
        if cols[n - 1].field.name == ROW_ID_COL_NAME@ {
            before
        } else {
            cols_insert(before, cols[n - 1].field, cols[n - 1].poly)
        }
    }
}

/// Satisfied by the row number.
pub open spec fn is_row_id() -> spec_fn(FieldView) -> bool {
    |f: FieldView| f.name == ROW_ID_COL_NAME@
}

/// A table without its row number; one whose schema lists none stays as it
/// is.
pub open spec fn without_row_id(t: TableView) -> TableView {
    match t.schema {
        Some(s) if first_index(s.fields, is_row_id()) is Some => table_with(
            cols_without_row_id(t.cols, t.cols.len()),
            s.metadata,
            t.log_size,
        ),
        _ => t,
    }
}

fn lists_row_id(fields: &Vec<Field>) -> (r: bool)
    ensures
        r == (first_index(fields_view(fields@), is_row_id()) is Some),
{
    let ghost views = fields_view(fields@);
    let ghost p = is_row_id();
    let mut i: usize = 0;
    while i < fields.len()
        invariant
            i <= fields@.len(),
            views == fields_view(fields@),
            p == is_row_id(),
            forall|j: int| 0 <= j < i ==> !p(#[trigger] views[j]),
        decreases fields@.len() - i,
    {
        assert(views[i as int] == fields@[i as int]@);
        if same_text(fields[i].name.as_str(), ROW_ID_COL_NAME) {
            proof {
                lemma_is_first(views, p, i as int);
            }
            return true;
        }
        i = i + 1;
    }
    proof {
        lemma_no_first(views, p);
    }
    false
}

/// A table without its row number, which only makes the order of rows
/// deterministic.
pub fn strip_row_id(table: Table) -> (r: Table)
    ensures
        r@ == without_row_id(table@),
{
    let listed: bool = match &table.schema {
        Some(s) => lists_row_id(&s.fields),
        None => false,
    };
    if !listed {
        return table;
    }
    let mut cols: Vec<TrackedColumn> = Vec::new();
    let mut i: usize = 0;
    assert(cols_view(cols@) =~= Seq::<ColView>::empty());
    while i < table.cols.len()
        invariant
            i <= table.cols@.len(),
            cols_view(cols@) == cols_without_row_id(table@.cols, i as nat),
        decreases table.cols@.len() - i,
    {
        assert(table@.cols[i as int] == table.cols@[i as int]@);
        if !same_text(table.cols[i].field.name.as_str(), ROW_ID_COL_NAME) {
            insert_col(&mut cols, table.cols[i].field.copy(), table.cols[i].poly);
        }
        i = i + 1;
    }
    Table::with_metadata(cols, table.metadata(), table.log_size)
}

// ---------------------------------------------------------------------------
// Planning
// ---------------------------------------------------------------------------

/// The order that a sort plans over its input: active rows first, then the
/// keys, then the row number.
pub open spec fn planned_order(s: Seq<QFieldView>, expr: Seq<SortView>) -> Seq<SortView> {
    seq![
        SortView {
            expr: ExprView::Column(ColumnView { relation: None, name: ACTIVATOR_COL_NAME@ }),
            asc: false,
            nulls_first: false,
        },
    ] + resolved_sorts(Resolution::Exact, s, expr) + row_id_sort(s)
}

/// The order that a sort plans over its input.
pub fn planned_sort_exprs(input: &DfSchema, sort: &Sort) -> (r: Vec<SortExpr>)
    ensures
        sorts_view(r@) == planned_order(input@, sort@.expr),
{
    let mut out: Vec<SortExpr> = Vec::new();
    let first = SortExpr {
        expr: Expr::Column(Column::new_unqualified(ACTIVATOR_COL_NAME)),
        asc: false,
        nulls_first: false,
    };
    let ghost head = first@;
    out.push(first);
    let mut keys: Vec<SortExpr> = resolve_sorts(Resolution::Exact, input, &sort.expr);
    let mut ids: Vec<SortExpr> = row_id_sort_exprs(input);
    let ghost k = keys@;
    let ghost d = ids@;
    out.append(&mut keys);
    out.append(&mut ids);
    proof {
        reveal_with_fuel(SortExpr::view, 2);
        reveal_with_fuel(Expr::view, 2);
        assert(sorts_view(out@) =~= seq![head] + sorts_view(k) + sorts_view(d));
    }
    out
}

/// The column of a field, where it is not the row number.
pub open spec fn column_but_row_id() -> spec_fn(QFieldView) -> Option<ExprView> {
    |q: QFieldView|
        if q.field.name == ROW_ID_COL_NAME@ {
            None
        } else {
            Some(ExprView::Column(column_of(q)))
        }
}

/// The projection of an output onto its columns other than the row number,
/// qualifiers kept.
pub fn output_exprs(schema: &DfSchema) -> (r: Vec<Expr>)
    ensures
        exprs_view(r@) == kept(schema@, column_but_row_id()),
{
    let ghost f = column_but_row_id();
    let mut out: Vec<Expr> = Vec::new();
    let mut i: usize = 0;
    assert(exprs_view(out@) =~= kept(schema@.take(0), f));
    while i < schema.fields.len()
        invariant
            i <= schema.fields@.len(),
            f == column_but_row_id(),
            exprs_view(out@) == kept(schema@.take(i as int), f),
        decreases schema.fields@.len() - i,
    {
        proof {
            lemma_kept_step(schema@, f, i as int);
            assert(schema@[i as int] == schema.fields@[i as int]@);
        }
        if !same_text(schema.fields[i].field.name.as_str(), ROW_ID_COL_NAME) {
            let ghost before = exprs_view(out@);
            let e = Expr::Column(schema.fields[i].column());
            out.push(e);
            assert(exprs_view(out@) =~= before.push(e@));
        }
        i = i + 1;
    }
    assert(schema@.take(schema@.len() as int) =~= schema@);
    out
}

/// The expressions of a list of sort keys.
pub open spec fn key_exprs(s: Seq<SortView>) -> Seq<ExprView> {
    Seq::new(s.len(), |i: int| s[i].expr)
}

/// Satisfied by the activators of a schema.
pub open spec fn is_activator_field() -> spec_fn(QFieldView) -> bool {
    |q: QFieldView| q.field.name == ACTIVATOR_COL_NAME@
}

/// The projection of an output onto its keys: the keys, the activator where
/// the output has one, and the row number.
pub open spec fn key_projection(s: Seq<QFieldView>, expr: Seq<SortView>) -> Seq<ExprView> {
    let keys = key_exprs(resolved_sorts(Resolution::Exact, s, expr));
    with_row_id(
        s,
        if first_index(s, is_activator_field()) is Some {
            keys.push(
                ExprView::Column(ColumnView { relation: None, name: ACTIVATOR_COL_NAME@ }),
            )
        } else {
            keys
        },
    )
}

fn has_activator(schema: &DfSchema) -> (r: bool)
    ensures
        r == (first_index(schema@, is_activator_field()) is Some),
{
    let ghost p = is_activator_field();
    let mut i: usize = 0;
    while i < schema.fields.len()
        invariant
            i <= schema.fields@.len(),
            p == is_activator_field(),
            forall|j: int| 0 <= j < i ==> !p(#[trigger] schema@[j]),
        decreases schema.fields@.len() - i,
    {
        assert(schema@[i as int] == schema.fields@[i as int]@);
        if same_text(schema.fields[i].field.name.as_str(), ACTIVATOR_COL_NAME) {
            proof {
                lemma_is_first(schema@, p, i as int);
            }
            return true;
        }
        i = i + 1;
    }
    proof {
        lemma_no_first(schema@, p);
    }
    false
}

/// The projection of an output onto its keys.
pub fn output_key_exprs(output: &DfSchema, sort: &Sort) -> (r: Vec<Expr>)
    ensures
        exprs_view(r@) == key_projection(output@, sort@.expr),
{
    let resolved: Vec<SortExpr> = resolve_sorts(Resolution::Exact, output, &sort.expr);
    let ghost views = sorts_view(resolved@);
    let mut out: Vec<Expr> = Vec::new();
    let mut i: usize = 0;
    while i < resolved.len()
        invariant
            i <= resolved@.len(),
            views == sorts_view(resolved@),
            out@.len() == i,
            forall|j: int| 0 <= j < i ==> (#[trigger] out@[j])@ == views[j].expr,
        decreases resolved@.len() - i,
    {
        assert(views[i as int] == resolved@[i as int]@);
        out.push(resolved[i].expr.copy());
        i = i + 1;
    }
    let ghost keys = key_exprs(views);
    assert(exprs_view(out@) =~= keys);
    if has_activator(output) {
        let e = Expr::Column(Column::new_unqualified(ACTIVATOR_COL_NAME));
        out.push(e);
        assert(exprs_view(out@) =~= keys.push(e@));
    }
    append_row_id_expr_if_present(output, &mut out);
    out
}

/// Satisfied by the fields that are keys.
pub open spec fn is_key_field() -> spec_fn(QFieldView) -> bool {
    |q: QFieldView| !is_system_name(q.field.name)
}

/// What is wrong with the planned keys of an output: not as many as there
/// are keys, or not with exactly one Boolean activator.
pub open spec fn hint_error(s: Seq<QFieldView>, expected: usize) -> Option<SortError> {
    let keys = indices_where(s, is_key_field());
    let activators = indices_where(s, is_activator_field());
    if keys.len() != expected {
        Some(SortError::HintKeys { actual: keys.len() as usize, expected })
    } else if activators.len() != 1 || s[activators[0]].field.data_type != TypeView::Boolean {
        Some(SortError::HintActivator)
    } else {
        None
    }
}

/// Checks the shape of the planned keys of an output.
pub fn checked_output_hint(hint: Option<&DfSchema>, expected: usize) -> (r: Result<(), SortError>)
    ensures
        match hint {
            None => r == Err::<(), SortError>(SortError::MissingSortKeys),
            Some(s) => match r {
                Ok(()) => hint_error(s@, expected) is None,
                Err(e) => hint_error(s@, expected) == Some(e),
            },
        },
{
    let schema: &DfSchema = match hint {
        Some(s) => s,
        None => return Err(SortError::MissingSortKeys),
    };
    let ghost p = is_key_field();
    let ghost q = is_activator_field();
    let mut keys: usize = 0;
    let mut activators: Vec<usize> = Vec::new();
    let mut i: usize = 0;
    assert(ints(activators@) =~= indices_where(schema@.take(0), q));
    while i < schema.fields.len()
        invariant
            i <= schema.fields@.len(),
            p == is_key_field(),
            q == is_activator_field(),
            keys <= i,
            keys == indices_where(schema@.take(i as int), p).len(),
            ints(activators@) == indices_where(schema@.take(i as int), q),
            forall|j: int|
                0 <= j < activators@.len() ==> (#[trigger] activators@[j]) < schema.fields@.len(),
        decreases schema.fields@.len() - i,
    {
        proof {
            lemma_indices_step(schema@, p, i as int);
            lemma_indices_step(schema@, q, i as int);
            assert(schema@[i as int] == schema.fields@[i as int]@);
        }
        let name: &str = schema.fields[i].field.name.as_str();
        if !is_system_column(name) {
            keys = keys + 1;
        }
        if same_text(name, ACTIVATOR_COL_NAME) {
            let ghost before = ints(activators@);
            activators.push(i);
            assert(ints(activators@) =~= before.push(i as int));
        }
        i = i + 1;
    }
    assert(schema@.take(schema@.len() as int) =~= schema@);
    assert(ints(activators@).len() == activators@.len());
    if keys != expected {
        return Err(SortError::HintKeys { actual: keys, expected });
    }
    if activators.len() != 1 {
        return Err(SortError::HintActivator);
    }
    let at: usize = activators[0];
    assert(ints(activators@)[0] == at as int);
    assert(schema@[at as int] == schema.fields@[at as int]@);
    match &schema.fields[at].field.data_type {
        DataType::Boolean => Ok(()),
        _ => Err(SortError::HintActivator),
    }
}

/// The optional schema as a mathematical value.
pub open spec fn schema_ref(s: Option<&DfSchema>) -> Option<Seq<QFieldView>> {
    match s {
        Some(x) => Some(x@),
        None => None,
    }
}

/// The projection that gives the planned keys of a sort from its planned
/// output. A sort that cannot be proved plans nothing.
pub open spec fn planned_keys(sort: SortNodeView, output: Option<Seq<QFieldView>>) -> Result<
    Seq<ExprView>,
    SortError,
> {
    match (sort_error(sort), output) {
        (Some(e), _) => Err(e),
        (None, None) => Err(SortError::MissingPlan),
        (None, Some(s)) => Ok(key_projection(s, sort.expr)),
    }
}

/// The projection that gives the planned keys of a sort from its planned
/// output. The keys are planned as virtual: they are columns of the output.
pub fn initialize_gadget_plans(sort: &Sort, output: Option<&DfSchema>) -> (r: Result<
    Vec<Expr>,
    SortError,
>)
    ensures
        match r {
            Ok(exprs) => planned_keys(sort@, schema_ref(output)) == Ok::<Seq<ExprView>, SortError>(
                exprs_view(exprs@),
            ),
            Err(e) => planned_keys(sort@, schema_ref(output)) == Err::<Seq<ExprView>, SortError>(e),
        },
{
    match validate_sort(sort) {
        Ok(()) => {},
        Err(e) => return Err(e),
    }
    match output {
        Some(s) => Ok(output_key_exprs(s, sort)),
        None => Err(SortError::MissingPlan),
    }
}

/// Checks what the gadget of a sort finds planned as its keys.
pub fn check_gadget_plans(sort: &Sort, hint: Option<&DfSchema>) -> (r: Result<(), SortError>)
    ensures
        match (sort_error(sort@), hint) {
            (Some(e), _) => r == Err::<(), SortError>(e),
            (None, None) => r == Err::<(), SortError>(SortError::MissingSortKeys),
            (None, Some(s)) => match r {
                Ok(()) => hint_error(s@, sort.expr@.len() as usize) is None,
                Err(e) => hint_error(s@, sort.expr@.len() as usize) == Some(e),
            },
        },
{
    match validate_sort(sort) {
        Ok(()) => {},
        Err(e) => return Err(e),
    }
    checked_output_hint(hint, sort.expr.len())
}

// ---------------------------------------------------------------------------
// Wiring
// ---------------------------------------------------------------------------

/// What the gadget is handed: the rows before and after, whose permutation
/// it proves, and the keys of the output, whose order it proves.
#[derive(Debug)]
pub struct OrderTables {
    pub input: Table,
    pub output: Table,
    pub keys: Table,
}

/// Mathematical counterpart of [`OrderTables`].
#[verifier::ext_equal]
pub struct OrderView {
    pub input: TableView,
    pub output: TableView,
    pub keys: TableView,
}

impl OrderTables {
    /// The tables as mathematical values.
    pub open spec fn view(&self) -> OrderView {
        OrderView { input: self.input@, output: self.output@, keys: self.keys@ }
    }
}

/// What the gadget of a sort is handed. A sort that cannot be proved fails
/// before anything is looked at.
pub open spec fn order_tables(
    sort: SortNodeView,
    input: Option<TableView>,
    output: Option<TableView>,
) -> Result<OrderView, SortError> {
    match sort_error(sort) {
        Some(e) => Err(e),
        None => match (input, output) {
            (None, _) => Err(SortError::MissingInputTable),
            (Some(_), None) => Err(SortError::MissingOutputTable),
            (Some(i), Some(o)) => match sort_keys(sort, o) {
                Err(e) => Err(e),
                Ok(keys) => Ok(
                    OrderView { input: without_row_id(i), output: without_row_id(o), keys },
                ),
            },
        },
    }
}

/// What the gadget of a sort is handed, for either party.
pub fn initialize_gadgets(sort: &Sort, input: Option<Table>, output: Option<Table>) -> (r: Result<
    OrderTables,
    SortError,
>)
    ensures
        match r {
            Ok(t) => order_tables(
                sort@,
                crate::aggregate::table_opt(input),
                crate::aggregate::table_opt(output),
            ) == Ok::<OrderView, SortError>(t@),
            Err(e) => order_tables(
                sort@,
                crate::aggregate::table_opt(input),
                crate::aggregate::table_opt(output),
            ) == Err::<OrderView, SortError>(e),
        },
{
    match validate_sort(sort) {
        Ok(()) => {},
        Err(e) => return Err(e),
    }
    let input_table: Table = match input {
        Some(t) => t,
        None => return Err(SortError::MissingInputTable),
    };
    let output_table: Table = match output {
        Some(t) => t,
        None => return Err(SortError::MissingOutputTable),
    };
    let keys: Table = match build_output_sort_keys(&output_table, sort) {
        Ok(t) => t,
        Err(e) => return Err(e),
    };
    Ok(OrderTables { input: strip_row_id(input_table), output: strip_row_id(output_table), keys })
}

/// The payload of the gadget of a sort: the tables that have been put there so
/// far.
#[derive(Debug)]
pub struct OrderPayload {
    pub input: Option<Table>,
    pub output: Option<Table>,
    pub keys: Option<Table>,
}

impl OrderPayload {
    /// Whether the payload holds exactly the given tables.
    pub open spec fn holds(&self, t: OrderView) -> bool {
        &&& self.input matches Some(x) && x@ == t.input
        &&& self.output matches Some(x) && x@ == t.output
        &&& self.keys matches Some(x) && x@ == t.keys
    }
}

/// Puts the tables of a sort into the payload of its gadget, in place of
/// whatever was there. A sort that is refused leaves the payload alone.
pub fn wire_gadget(
    payload: &mut OrderPayload,
    sort: &Sort,
    input: Option<Table>,
    output: Option<Table>,
) -> (r: Result<(), SortError>)
    ensures
        match order_tables(
            sort@,
            crate::aggregate::table_opt(input),
            crate::aggregate::table_opt(output),
        ) {
            Ok(t) => r is Ok && final(payload).holds(t),
            Err(e) => r == Err::<(), SortError>(e) && *final(payload) == *old(payload),
        },
{
    match initialize_gadgets(sort, input, output) {
        Ok(t) => {
            payload.input = Some(t.input);
            payload.output = Some(t.output);
            payload.keys = Some(t.keys);
            Ok(())
        },
        Err(e) => Err(e),
    }
}

/// What the children of the gadget are handed: the keys to the sortedness
/// check, the rows before and after to the permutation check.
pub fn gadget_payloads(
    sort: &Sort,
    keys: Option<Table>,
    input: Option<Table>,
    output: Option<Table>,
) -> (r: Result<OrderTables, SortError>)
    ensures
        match (sort_error(sort@), keys, input, output) {
            (Some(e), _, _, _) => r == Err::<OrderTables, SortError>(e),
            (None, None, _, _) => r == Err::<OrderTables, SortError>(SortError::MissingSortKeys),
            (None, Some(_), None, _) => r == Err::<OrderTables, SortError>(
                SortError::MissingOrderInput,
            ),
            (None, Some(_), Some(_), None) => r == Err::<OrderTables, SortError>(
                SortError::MissingOrderOutput,
            ),
            (None, Some(k), Some(i), Some(o)) => r == Ok::<OrderTables, SortError>(
                OrderTables { input: i, output: o, keys: k },
            ),
        },
        r matches Ok(t) ==> keys == Some(t.keys) && input == Some(t.input) && output == Some(
            t.output,
        ),
{
    match validate_sort(sort) {
        Ok(()) => {},
        Err(e) => return Err(e),
    }
    let k: Table = match keys {
        Some(t) => t,
        None => return Err(SortError::MissingSortKeys),
    };
    let i: Table = match input {
        Some(t) => t,
        None => return Err(SortError::MissingOrderInput),
    };
    let o: Table = match output {
        Some(t) => t,
        None => return Err(SortError::MissingOrderOutput),
    };
    Ok(OrderTables { input: i, output: o, keys: k })
}

/// A key of the sortedness check: its name and its direction.
#[derive(Debug)]
pub struct SortSpec {
    pub name: String,
    pub asc: bool,
    pub nulls_first: bool,
}

/// Whether a key of the sortedness check is that of a sort key.
pub open spec fn spec_of(x: SortSpec, k: SortView) -> bool {
    match k.expr {
        ExprView::Column(c) => x.name@ == flat_name(c) && x.asc == k.asc && x.nulls_first
            == k.nulls_first,
        _ => false,
    }
}

/// The keys of the sortedness check, of a sort whose keys are columns.
pub fn sort_specs(sort: &Sort) -> (r: Option<Vec<SortSpec>>)
    ensures
        match r {
            Some(specs) => specs@.len() == sort@.expr.len() && forall|i: int|
                0 <= i < specs@.len() ==> spec_of(#[trigger] specs@[i], sort@.expr[i]),
            None => exists|i: int|
                0 <= i < sort@.expr.len() && !((#[trigger] sort@.expr[i]).expr is Column),
        },
{
    let ghost keys = sort@.expr;
    let mut out: Vec<SortSpec> = Vec::new();
    let mut i: usize = 0;
    while i < sort.expr.len()
        invariant
            i <= sort.expr@.len(),
            keys == sort@.expr,
            out@.len() == i,
            forall|j: int| 0 <= j < i ==> spec_of(#[trigger] out@[j], keys[j]),
        decreases sort.expr@.len() - i,
    {
        assert(keys[i as int] == sort.expr@[i as int]@);
        match &sort.expr[i].expr {
            Expr::Column(c) => {
                let x = SortSpec {
                    name: c.flat_name(),
                    asc: sort.expr[i].asc,
                    nulls_first: sort.expr[i].nulls_first,
                };
                assert(spec_of(x, keys[i as int]));
                out.push(x);
            },
            _ => {
                assert(!(keys[i as int].expr is Column));
                return None;
            },
        }
        i = i + 1;
    }
    Some(out)
}

// ---------------------------------------------------------------------------
// Texts
// ---------------------------------------------------------------------------

/// A sort as text: its input, its keys and its fetch.
pub fn display(input: &str, keys: &Vec<String>, fetch: Option<usize>) -> (r: String)
    ensures
        r@ == "Order By\nInput: "@ + input@ + ", exprs: "@ + (if keys@.len() == 0 {
            "none"@
        } else {
            joined(texts_view(keys@), ", "@)
        }) + ", fetch: "@ + (match fetch {
            Some(n) => decimal(n as nat),
            None => "none"@,
        }),
{
    let mut out: String = join_text3("Order By\nInput: ", input, ", exprs: ");
    if keys.len() == 0 {
        out.append("none");
    } else {
        out.append(join_all(keys, ", ").as_str());
    }
    out.append(", fetch: ");
    match fetch {
        Some(n) => out.append(decimal_text(n).as_str()),
        None => out.append("none"),
    }
    out
}

/// The text of a key: that of its column, or `detail` where it is none.
pub open spec fn key_text(sort: SortNodeView, index: int, detail: Seq<char>) -> Seq<char> {
    if 0 <= index < sort.expr.len() && sort.expr[index].expr is Column {
        flat_name(sort.expr[index].expr->Column_0)
    } else {
        detail
    }
}

/// The name of a key: that of its column, or `detail` where it is none.
pub open spec fn key_name(sort: SortNodeView, index: int, detail: Seq<char>) -> Seq<char> {
    if 0 <= index < sort.expr.len() && sort.expr[index].expr is Column {
        sort.expr[index].expr->Column_0.name
    } else {
        detail
    }
}

/// The canonical text of a key: that of the input field it resolves to.
pub open spec fn canonical_text(sort: SortNodeView, index: int, detail: Seq<char>) -> Seq<char> {
    if 0 <= index < sort.expr.len() {
        match canonical_key(sort, index) {
            Ok(q) => flat_name(column_of(q)),
            Err(_) => detail,
        }
    } else {
        detail
    }
}

/// What a faulty key is reported as. `detail` is what the engine prints of
/// the expression, the type or the failed lookup that the fault is about.
pub open spec fn key_message(
    sort: SortNodeView,
    index: int,
    fault: KeyFault,
    detail: Seq<char>,
) -> Seq<char> {
    let text = key_text(sort, index, detail);
    let name = key_name(sort, index, detail);
    match fault {
        KeyFault::NotColumn => "unsupported ORDER BY key `"@ + detail
            + "`; only direct column keys are currently proved"@,
        KeyFault::SystemColumn => "internal system column `"@ + text
            + "` cannot be an ORDER BY key"@,
        KeyFault::Unresolved => "ORDER BY key `"@ + text + "` does not resolve uniquely: "@
            + detail,
        KeyFault::Nullable => "nullable ORDER BY key `"@ + text
            + "` is unsupported until NULL ordering is proved"@,
        KeyFault::UnsupportedType => "unsupported ORDER BY key type `"@ + detail + "` for `"@ + text
            + "`; only bounded integer/date keys are currently proved"@,
        KeyFault::DottedName => "unsupported ORDER BY key name `"@ + name
            + "`; dots in key field names are not currently proved"@,
        KeyFault::DuplicateName => "ambiguous ORDER BY key `"@ + name
            + "`; duplicate unqualified key names are unsupported"@,
    }
}

fn column_at(sort: &Sort, index: usize) -> (r: Option<&Column>)
    ensures
        match r {
            Some(c) => index < sort@.expr.len() && sort@.expr[index as int].expr
                == ExprView::Column(c@),
            None => !(index < sort@.expr.len() && sort@.expr[index as int].expr is Column),
        },
{
    if index < sort.expr.len() {
        assert(sort@.expr[index as int] == sort.expr@[index as int]@);
        match &sort.expr[index].expr {
            Expr::Column(c) => Some(c),
            _ => None,
        }
    } else {
        None
    }
}

/// What a faulty key is reported as.
pub fn key_fault_message(sort: &Sort, index: usize, fault: KeyFault, detail: &str) -> (r: String)
    ensures
        r@ == key_message(sort@, index as int, fault, detail@),
{
    let (text, name): (String, String) = match column_at(sort, index) {
        Some(c) => (c.flat_name(), c.name.clone()),
        None => (detail.to_owned(), detail.to_owned()),
    };
    match fault {
        KeyFault::NotColumn => join_text3(
            "unsupported ORDER BY key `",
            detail,
            "`; only direct column keys are currently proved",
        ),
        KeyFault::SystemColumn => join_text3(
            "internal system column `",
            text.as_str(),
            "` cannot be an ORDER BY key",
        ),
        KeyFault::Unresolved => {
            let mut out: String = join_text3(
                "ORDER BY key `",
                text.as_str(),
                "` does not resolve uniquely: ",
            );
            out.append(detail);
            out
        },
        KeyFault::Nullable => join_text3(
            "nullable ORDER BY key `",
            text.as_str(),
            "` is unsupported until NULL ordering is proved",
        ),
        KeyFault::UnsupportedType => {
            let mut out: String = join_text3("unsupported ORDER BY key type `", detail, "` for `");
            out.append(text.as_str());
            out.append("`; only bounded integer/date keys are currently proved");
            out
        },
        KeyFault::DottedName => join_text3(
            "unsupported ORDER BY key name `",
            name.as_str(),
            "`; dots in key field names are not currently proved",
        ),
        KeyFault::DuplicateName => join_text3(
            "ambiguous ORDER BY key `",
            name.as_str(),
            "`; duplicate unqualified key names are unsupported",
        ),
    }
}

/// What the parties call a tracked column.
pub open spec fn column_word(party: Party) -> Seq<char> {
    match party {
        Party::Prover => "columns"@,
        Party::Verifier => "oracles"@,
    }
}

/// What a key that cannot be taken from the output is reported as. `detail`
/// is what the engine prints of the type of the output's column or of the
/// failed lookup, `expected` what it prints of the type of the key.
pub open spec fn output_message(
    sort: SortNodeView,
    index: int,
    fault: OutputFault,
    party: Party,
    detail: Seq<char>,
    expected: Seq<char>,
) -> Seq<char> {
    let text = canonical_text(sort, index, detail);
    match fault {
        OutputFault::NotColumn => "ORDER BY key was not a validated direct column"@,
        OutputFault::Unresolved => "ORDER BY key `"@ + key_text(sort, index, detail)
            + "` does not resolve uniquely: "@ + detail,
        OutputFault::Found(n) => "ORDER BY output key `"@ + text + "` resolved to "@ + decimal(
            n as nat,
        ) + " tracked "@ + column_word(party),
        OutputFault::Nullable => "tracked ORDER BY output key `"@ + text + "` is nullable"@,
        OutputFault::UnsupportedType => "tracked ORDER BY output key `"@ + text
            + "` has unsupported type `"@ + detail + "`"@,
        OutputFault::WrongType => "tracked ORDER BY output key `"@ + text + "` has type `"@ + detail
            + "`, expected `"@ + expected + "`"@,
    }
}

fn canonical_text_of(sort: &Sort, index: usize, detail: &str) -> (r: String)
    ensures
        r@ == canonical_text(sort@, index as int, detail@),
{
    match column_at(sort, index) {
        Some(c) => match sort.input.look_up(c) {
            Ok(k) => {
                assert(sort@.input[k as int] == sort.input.fields@[k as int]@);
                sort.input.fields[k].column().flat_name()
            },
            Err(_) => detail.to_owned(),
        },
        None => detail.to_owned(),
    }
}

/// What a key that cannot be taken from the output is reported as.
pub fn output_fault_message(
    sort: &Sort,
    index: usize,
    fault: OutputFault,
    party: Party,
    detail: &str,
    expected: &str,
) -> (r: String)
    ensures
        r@ == output_message(sort@, index as int, fault, party, detail@, expected@),
{
    let text: String = canonical_text_of(sort, index, detail);
    match fault {
        OutputFault::NotColumn => "ORDER BY key was not a validated direct column".to_owned(),
        OutputFault::Unresolved => {
            let key: String = match column_at(sort, index) {
                Some(c) => c.flat_name(),
                None => detail.to_owned(),
            };
            let mut out: String = join_text3(
                "ORDER BY key `",
                key.as_str(),
                "` does not resolve uniquely: ",
            );
            out.append(detail);
            out
        },
        OutputFault::Found(n) => {
            let mut out: String = join_text3("ORDER BY output key `", text.as_str(), "` resolved to ");
            out.append(decimal_text(n).as_str());
            out.append(" tracked ");
            match party {
                Party::Prover => out.append("columns"),
                Party::Verifier => out.append("oracles"),
            }
            out
        },
        OutputFault::Nullable => join_text3(
            "tracked ORDER BY output key `",
            text.as_str(),
            "` is nullable",
        ),
        OutputFault::UnsupportedType => {
            let mut out: String = join_text3(
                "tracked ORDER BY output key `",
                text.as_str(),
                "` has unsupported type `",
            );
            out.append(detail);
            out.append("`");
            out
        },
        OutputFault::WrongType => {
            let mut out: String = join_text3(
                "tracked ORDER BY output key `",
                text.as_str(),
                "` has type `",
            );
            out.append(detail);
            out.append("`, expected `");
            out.append(expected);
            out.append("`");
            out
        },
    }
}

/// What a sort that cannot be proved or wired is reported as.
pub open spec fn sort_message(
    e: SortError,
    sort: SortNodeView,
    party: Party,
    detail: Seq<char>,
    expected: Seq<char>,
) -> Seq<char> {
    let prover = party == Party::Prover;
    match e {
        SortError::NoKeys => "ORDER BY requires at least one proved key"@,
        SortError::EmbeddedFetch =>
        "ORDER BY with an embedded fetch is unsupported; normalize it to a separately proved LIMIT"@,
        SortError::Key { index, fault } => key_message(sort, index as int, fault, detail),
        SortError::Output { index, fault } => output_message(
            sort,
            index as int,
            fault,
            party,
            detail,
            expected,
        ),
        SortError::KeyCount => if prover {
            "ORDER BY output key count does not match the logical sort"@
        } else {
            "ORDER BY output key-oracle count does not match the logical sort"@
        },
        SortError::MissingActivator => if prover {
            "ORDER BY output activator is missing"@
        } else {
            "ORDER BY output activator oracle is missing"@
        },
        SortError::MultipleActivators => if prover {
            "ORDER BY output has multiple activator columns"@
        } else {
            "ORDER BY output has multiple activator oracles"@
        },
        SortError::ActivatorNotBoolean => "ORDER BY output activator must be Boolean, got `"@
            + detail + "`"@,
        SortError::MissingInputTable => if prover {
            "ORDER BY input table is missing"@
        } else {
            "ORDER BY input table oracle is missing"@
        },
        SortError::MissingOutputTable => if prover {
            "ORDER BY output table is missing"@
        } else {
            "ORDER BY output table oracle is missing"@
        },
        SortError::MissingPlan => "ORDER BY output planning payload is missing"@,
        SortError::MissingSortKeys => "ORDER BY output sort-key payload is missing"@,
        SortError::MissingOrderInput => "ORDER BY row-permutation payload `"@ + INPUT_LABEL@
            + "` is missing"@,
        SortError::MissingOrderOutput => "ORDER BY row-permutation payload `"@ + OUTPUT_LABEL@
            + "` is missing"@,
        SortError::HintKeys { actual, expected: n } => "ORDER BY output sort-key hint contains "@
            + decimal(actual as nat) + " keys, expected "@ + decimal(n as nat),
        SortError::HintActivator =>
        "ORDER BY output sort-key hint must contain one Boolean activator"@,
    }
}

/// The input field of the key that an error is about, whose type the report of
/// an unsupported or unexpected type names.
pub open spec fn key_field(e: SortError, sort: SortNodeView) -> Option<FieldView> {
    match e {
        SortError::Key { index, .. } | SortError::Output { index, .. } => if index
            < sort.expr.len() {
            match canonical_key(sort, index as int) {
                Ok(q) => Some(q.field),
                Err(_) => None,
            }
        } else {
            None
        },
        _ => None,
    }
}

/// The output's own field that an error is about: that of the one column found
/// for a key, or that of an activator that is not Boolean.
pub open spec fn column_field(e: SortError, sort: SortNodeView, cols: Seq<ColView>) -> Option<
    FieldView,
> {
    match e {
        SortError::Output { index, .. } => if index < sort.expr.len() {
            match canonical_key(sort, index as int) {
                Ok(q) => {
                    let found = indices_where(cols, is_key_column(column_of(q)));
                    if found.len() == 1 {
                        Some(cols[found[0]].field)
                    } else {
                        None
                    }
                },
                Err(_) => None,
            }
        } else {
            None
        },
        SortError::ActivatorNotBoolean => {
            let found = indices_where(cols, is_activator_col());
            if found.len() > 0 {
                Some(cols[found[0]].field)
            } else {
                None
            }
        },
        _ => None,
    }
}

/// An output key of another type than its key is reported with both types: that
/// of the output's column and that of the input's field, which differ.
pub proof fn wrong_types_are_reported(sort: SortNodeView, output: TableView)
    requires
        sort.expr.len() <= usize::MAX,
    ensures
        sort_keys(sort, output) matches Err(e) ==> (e matches SortError::Output {
            index: _,
            fault: OutputFault::WrongType,
        } ==> match (column_field(e, sort, output.cols), key_field(e, sort)) {
            (Some(f), Some(g)) => f.data_type != g.data_type,
            _ => false,
        }),
{
    lemma_output_error_place(sort, output.cols, sort.expr.len());
}

proof fn lemma_output_error_place(sort: SortNodeView, cols: Seq<ColView>, n: nat)
    requires
        n <= sort.expr.len() <= usize::MAX,
    ensures
        output_keys(sort, cols, n) matches Err(e) ==> (e matches SortError::Output { index, fault }
            && index < n && output_key(sort, cols, index as int) == Err::<int, OutputFault>(fault)),
    decreases n,
{
    if n > 0 {
        lemma_output_error_place(sort, cols, (n - 1) as nat);
    }
}

fn resolved_key(sort: &Sort, index: usize) -> (r: Option<usize>)
    ensures
        match r {
            Some(k) => index < sort@.expr.len() && k < sort.input.fields@.len() && canonical_key(
                sort@,
                index as int,
            ) == Ok::<QFieldView, OutputFault>(sort@.input[k as int]),
            None => index >= sort@.expr.len() || canonical_key(sort@, index as int) is Err,
        },
{
    match column_at(sort, index) {
        Some(c) => match sort.input.look_up(c) {
            Ok(k) => Some(k),
            Err(_) => None,
        },
        None => None,
    }
}

impl SortError {
    /// The input field of the key that the error is about.
    pub fn key_field(&self, sort: &Sort) -> (r: Option<Field>)
        ensures
            match r {
                Some(f) => key_field(*self, sort@) == Some(f@),
                None => key_field(*self, sort@) is None,
            },
    {
        let index: usize = match *self {
            SortError::Key { index, .. } => index,
            SortError::Output { index, .. } => index,
            _ => return None,
        };
        match resolved_key(sort, index) {
            Some(k) => {
                assert(sort@.input[k as int] == sort.input.fields@[k as int]@);
                Some(sort.input.fields[k].field.copy())
            },
            None => None,
        }
    }

    /// The output's own field that the error is about.
    pub fn column_field(&self, sort: &Sort, output: &Table) -> (r: Option<Field>)
        ensures
            match r {
                Some(f) => column_field(*self, sort@, output@.cols) == Some(f@),
                None => column_field(*self, sort@, output@.cols) is None,
            },
    {
        let found: Vec<usize> = match *self {
            SortError::Output { index, .. } => match resolved_key(sort, index) {
                Some(k) => {
                    assert(sort@.input[k as int] == sort.input.fields@[k as int]@);
                    let found = find_key_columns(output, &sort.input.fields[k].column());
                    assert(ints(found@).len() == found@.len());
                    if found.len() != 1 {
                        return None;
                    }
                    found
                },
                None => return None,
            },
            SortError::ActivatorNotBoolean => {
                let found = find_activators(output);
                assert(ints(found@).len() == found@.len());
                if found.len() == 0 {
                    return None;
                }
                found
            },
            _ => return None,
        };
        let at: usize = found[0];
        assert(ints(found@)[0] == at as int);
        assert(output@.cols[at as int] == output.cols@[at as int]@);
        Some(output.cols[at].field.copy())
    }

    /// What the error is reported as. `detail` and `expected` are what the
    /// engine prints of what the error is about.
    pub fn message(&self, sort: &Sort, party: Party, detail: &str, expected: &str) -> (r: String)
        ensures
            r@ == sort_message(*self, sort@, party, detail@, expected@),
    {
        let prover: bool = party == Party::Prover;
        match *self {
            SortError::NoKeys => "ORDER BY requires at least one proved key".to_owned(),
            SortError::EmbeddedFetch =>
            "ORDER BY with an embedded fetch is unsupported; normalize it to a separately proved LIMIT".to_owned(),
            SortError::Key { index, fault } => key_fault_message(sort, index, fault, detail),
            SortError::Output { index, fault } => output_fault_message(
                sort,
                index,
                fault,
                party,
                detail,
                expected,
            ),
            SortError::KeyCount => if prover {
                "ORDER BY output key count does not match the logical sort".to_owned()
            } else {
                "ORDER BY output key-oracle count does not match the logical sort".to_owned()
            },
            SortError::MissingActivator => if prover {
                "ORDER BY output activator is missing".to_owned()
            } else {
                "ORDER BY output activator oracle is missing".to_owned()
            },
            SortError::MultipleActivators => if prover {
                "ORDER BY output has multiple activator columns".to_owned()
            } else {
                "ORDER BY output has multiple activator oracles".to_owned()
            },
            SortError::ActivatorNotBoolean => join_text3(
                "ORDER BY output activator must be Boolean, got `",
                detail,
                "`",
            ),
            SortError::MissingInputTable => if prover {
                "ORDER BY input table is missing".to_owned()
            } else {
                "ORDER BY input table oracle is missing".to_owned()
            },
            SortError::MissingOutputTable => if prover {
                "ORDER BY output table is missing".to_owned()
            } else {
                "ORDER BY output table oracle is missing".to_owned()
            },
            SortError::MissingPlan => "ORDER BY output planning payload is missing".to_owned(),
            SortError::MissingSortKeys => "ORDER BY output sort-key payload is missing".to_owned(),
            SortError::MissingOrderInput => join_text3(
                "ORDER BY row-permutation payload `",
                INPUT_LABEL,
                "` is missing",
            ),
            SortError::MissingOrderOutput => join_text3(
                "ORDER BY row-permutation payload `",
                OUTPUT_LABEL,
                "` is missing",
            ),
            SortError::HintKeys { actual, expected: n } => {
                let mut out: String = "ORDER BY output sort-key hint contains ".to_owned();
                out.append(decimal_text(actual).as_str());
                out.append(" keys, expected ");
                out.append(decimal_text(n).as_str());
                out
            },
            SortError::HintActivator =>
            "ORDER BY output sort-key hint must contain one Boolean activator".to_owned(),
        }
    }
}

// ---------------------------------------------------------------------------
// What the planned order is for
// ---------------------------------------------------------------------------

/// Whether a row comes before another in the order of the keys: the first key
/// on which they differ decides, by its direction. A row is given by the values
/// that expressions have on it.
pub open spec fn precedes(
    keys: Seq<SortView>,
    a: spec_fn(ExprView) -> int,
    b: spec_fn(ExprView) -> int,
) -> bool
    decreases keys.len(),
{
    if keys.len() == 0 {
        false
    } else {
        let x = a(keys[0].expr);
        let y = b(keys[0].expr);
        if x == y {
            precedes(keys.skip(1), a, b)
        } else if keys[0].asc {
            x < y
        } else {
            x > y
        }
    }
}

proof fn lemma_deciding_key(
    keys: Seq<SortView>,
    a: spec_fn(ExprView) -> int,
    b: spec_fn(ExprView) -> int,
    m: int,
)
    requires
        0 <= m < keys.len(),
        forall|j: int| 0 <= j < m ==> a((#[trigger] keys[j]).expr) == b(keys[j].expr),
        a(keys[m].expr) < b(keys[m].expr),
    ensures
        precedes(keys, a, b) == keys[m].asc,
        precedes(keys, b, a) == !keys[m].asc,
    decreases m,
{
    if m > 0 {
        assert(a(keys[0].expr) == b(keys[0].expr));
        let rest = keys.skip(1);
        assert forall|j: int| 0 <= j < m - 1 implies a((#[trigger] rest[j]).expr) == b(
            rest[j].expr,
        ) by {
            assert(rest[j] == keys[j + 1]);
        }
        assert(rest[m - 1] == keys[m]);
        lemma_deciding_key(rest, a, b, m - 1);
    }
}

/// In the order that a sort plans, every active row comes before every inactive
/// one, whatever else the rows hold.
pub proof fn active_rows_come_first(
    s: Seq<QFieldView>,
    expr: Seq<SortView>,
    active: spec_fn(ExprView) -> int,
    inactive: spec_fn(ExprView) -> int,
)
    requires
        active(ExprView::Column(ColumnView { relation: None, name: "__activator__"@ })) == 1,
        inactive(ExprView::Column(ColumnView { relation: None, name: "__activator__"@ })) == 0,
    ensures
        precedes(planned_order(s, expr), active, inactive),
        !precedes(planned_order(s, expr), inactive, active),
{
    lemma_deciding_key(planned_order(s, expr), inactive, active, 0);
}

/// Among rows that are active alike the requested keys decide, in their order
/// and each by its own direction. Nulls stand where each key asks for them.
pub proof fn requested_keys_decide_among_active_rows(
    s: Seq<QFieldView>,
    expr: Seq<SortView>,
    a: spec_fn(ExprView) -> int,
    b: spec_fn(ExprView) -> int,
    i: int,
)
    requires
        0 <= i < expr.len(),
        a(ExprView::Column(ColumnView { relation: None, name: "__activator__"@ })) == b(
            ExprView::Column(ColumnView { relation: None, name: "__activator__"@ }),
        ),
        forall|j: int|
            0 <= j < i ==> a(resolved_expr(Resolution::Exact, s, (#[trigger] expr[j]).expr)) == b(
                resolved_expr(Resolution::Exact, s, expr[j].expr),
            ),
        a(resolved_expr(Resolution::Exact, s, expr[i].expr)) < b(
            resolved_expr(Resolution::Exact, s, expr[i].expr),
        ),
    ensures
        precedes(planned_order(s, expr), a, b) == expr[i].asc,
        precedes(planned_order(s, expr), b, a) == !expr[i].asc,
        planned_order(s, expr)[i + 1].nulls_first == expr[i].nulls_first,
{
    let keys = planned_order(s, expr);
    let own = resolved_sorts(Resolution::Exact, s, expr);
    assert forall|j: int| 0 <= j < expr.len() implies #[trigger] keys[j + 1] == own[j] by {}
    assert forall|j: int| 0 <= j < i + 1 implies a((#[trigger] keys[j]).expr) == b(
        keys[j].expr,
    ) by {
        if j > 0 {
            assert(keys[(j - 1) + 1] == own[j - 1]);
            assert(own[j - 1].expr == resolved_expr(Resolution::Exact, s, expr[j - 1].expr));
        }
    }
    assert(keys[i + 1] == own[i]);
    lemma_deciding_key(keys, a, b, i + 1);
}

/// Rows that tie on every requested key stand in the order of their numbers.
pub proof fn row_numbers_break_ties(
    s: Seq<QFieldView>,
    expr: Seq<SortView>,
    a: spec_fn(ExprView) -> int,
    b: spec_fn(ExprView) -> int,
    k: int,
)
    requires
        0 <= k < s.len(),
        s[k].field.name == "__row_id__"@,
        forall|j: int| 0 <= j < k ==> (#[trigger] s[j]).field.name != "__row_id__"@,
        a(ExprView::Column(ColumnView { relation: None, name: "__activator__"@ })) == b(
            ExprView::Column(ColumnView { relation: None, name: "__activator__"@ }),
        ),
        forall|j: int|
            0 <= j < expr.len() ==> a(resolved_expr(Resolution::Exact, s, (#[trigger] expr[j]).expr))
                == b(resolved_expr(Resolution::Exact, s, expr[j].expr)),
        a(ExprView::Column(ColumnView { relation: s[k].qualifier, name: s[k].field.name })) < b(
            ExprView::Column(ColumnView { relation: s[k].qualifier, name: s[k].field.name }),
        ),
    ensures
        precedes(planned_order(s, expr), a, b),
        !precedes(planned_order(s, expr), b, a),
{
    let keys = planned_order(s, expr);
    let own = resolved_sorts(Resolution::Exact, s, expr);
    let ids = row_id_sort(s);
    let n = expr.len() as int;
    lemma_first_row_number(s, k);
    assert(keys[n + 1] == ids[0]);
    assert forall|j: int| 0 <= j < n + 1 implies a((#[trigger] keys[j]).expr) == b(
        keys[j].expr,
    ) by {
        if j > 0 {
            assert(keys[j] == own[j - 1]);
            assert(own[j - 1].expr == resolved_expr(Resolution::Exact, s, expr[j - 1].expr));
        }
    }
    lemma_deciding_key(keys, a, b, n + 1);
}

proof fn lemma_first_row_number(s: Seq<QFieldView>, k: int)
    requires
        0 <= k < s.len(),
        s[k].field.name == ROW_ID_COL_NAME@,
        forall|j: int| 0 <= j < k ==> (#[trigger] s[j]).field.name != ROW_ID_COL_NAME@,
    ensures
        columns_named(s, ROW_ID_COL_NAME@).len() > 0,
        columns_named(s, ROW_ID_COL_NAME@)[0] == column_of(s[k]),
    decreases s.len(),
{
    let f = column_if_named(ROW_ID_COL_NAME@);
    let t = s.drop_last();
    if k < s.len() - 1 {
        assert(t[k] == s[k]);
        assert forall|j: int| 0 <= j < k implies (#[trigger] t[j]).field.name
            != ROW_ID_COL_NAME@ by {
            assert(t[j] == s[j]);
        }
        lemma_first_row_number(t, k);
        assert(kept(s, f)[0] == kept(t, f)[0]);
    } else {
        lemma_no_row_number(t);
    }
}

proof fn lemma_no_row_number(s: Seq<QFieldView>)
    requires
        forall|j: int| 0 <= j < s.len() ==> (#[trigger] s[j]).field.name != ROW_ID_COL_NAME@,
    ensures
        columns_named(s, ROW_ID_COL_NAME@).len() == 0,
    decreases s.len(),
{
    if s.len() > 0 {
        let t = s.drop_last();
        assert forall|j: int| 0 <= j < t.len() implies (#[trigger] t[j]).field.name
            != ROW_ID_COL_NAME@ by {
            assert(t[j] == s[j]);
        }
        lemma_no_row_number(t);
    }
}

/// A sort is accepted exactly when it has keys, no fetch of its own, and every
/// key is a column that resolves uniquely to a non-null field of a bounded
/// integer type, with a plain name that no key before it has.
pub proof fn accepted_sorts_have_provable_keys(sort: SortNodeView)
    ensures
        sort_error(sort) is None <==> sort.expr.len() > 0 && sort.fetch is None && forall|i: int|
            0 <= i < sort.expr.len() ==> provable_key(sort, #[trigger] sort.expr[i].expr, i),
{
    if sort_error(sort) is None {
        assert forall|i: int| 0 <= i < sort.expr.len() implies provable_key(
            sort,
            #[trigger] sort.expr[i].expr,
            i,
        ) by {
            accepted_keys_are_faultless(sort, i);
            let c = sort.expr[i].expr->Column_0;
            assert forall|j: int| 0 <= j < i && (#[trigger] sort.expr[j]).expr is Column implies
                sort.expr[j].expr->Column_0.name != c.name by {
                assert(!named_before(sort.expr, i, c.name));
            }
        }
    }
    if forall|i: int| 0 <= i < sort.expr.len() ==> provable_key(sort, #[trigger] sort.expr[i].expr, i) {
        lemma_no_key_error(sort, sort.expr.len());
    }
}

/// Whether an expression at a place among the keys of a sort can be proved to be
/// sorted by.
pub open spec fn provable_key(sort: SortNodeView, e: ExprView, i: int) -> bool {
    e matches ExprView::Column(c) && looked_up_field(sort.input, c) matches Ok(k) && {
        let f = sort.input[k].field;
        &&& !f.nullable
        &&& f.data_type == TypeView::Int8 || f.data_type == TypeView::Int16 || f.data_type
            == TypeView::Int32 || f.data_type == TypeView::Int64 || f.data_type == TypeView::UInt8
            || f.data_type == TypeView::UInt16 || f.data_type == TypeView::UInt32 || f.data_type
            == TypeView::UInt64 || f.data_type == TypeView::Date32
        &&& c.name != "__activator__"@ && c.name != "__row_id__"@
        &&& !c.name.contains('.')
        &&& forall|j: int|
            0 <= j < i && (#[trigger] sort.expr[j]).expr is Column
                ==> sort.expr[j].expr->Column_0.name != c.name
    }
}

proof fn lemma_no_key_error(sort: SortNodeView, n: nat)
    requires
        n <= sort.expr.len(),
        forall|i: int|
            0 <= i < sort.expr.len() ==> provable_key(sort, #[trigger] sort.expr[i].expr, i),
    ensures
        keys_error(sort, n) is None,
    decreases n,
{
    if n > 0 {
        lemma_no_key_error(sort, (n - 1) as nat);
        assert(provable_key(sort, sort.expr[n - 1].expr, n - 1));
    }
}

proof fn lemma_output_keys_count(sort: SortNodeView, cols: Seq<ColView>, n: nat)
    requires
        output_keys(sort, cols, n) is Ok,
    ensures
        output_keys(sort, cols, n)->Ok_0.len() <= n,
    decreases n,
{
    if n > 0 {
        lemma_output_keys_count(sort, cols, (n - 1) as nat);
        let before = output_keys(sort, cols, (n - 1) as nat)->Ok_0;
        lemma_field_index(before, cols[output_key(sort, cols, n - 1)->Ok_0].field);
    }
}

proof fn lemma_output_keys_in_order(sort: SortNodeView, cols: Seq<ColView>, n: nat, i: int)
    requires
        output_keys(sort, cols, n) is Ok,
        output_keys(sort, cols, n)->Ok_0.len() == n,
        0 <= i < n,
    ensures
        output_key(sort, cols, i) is Ok,
        output_keys(sort, cols, n)->Ok_0[i] == cols[output_key(sort, cols, i)->Ok_0],
    decreases n,
{
    lemma_output_keys_count(sort, cols, (n - 1) as nat);
    let before = output_keys(sort, cols, (n - 1) as nat)->Ok_0;
    let k = output_key(sort, cols, n - 1)->Ok_0;
    lemma_field_index(before, cols[k].field);
    if i < n - 1 {
        lemma_output_keys_in_order(sort, cols, (n - 1) as nat, i);
    }
}

/// The sortedness check gets one column per key, in the order of the keys, and
/// then the activator. The column of a key is the output's own, under the name,
/// the qualifier and the type of the input field that the key resolves to.
pub proof fn sort_keys_stand_in_the_order_of_the_keys(
    sort: SortNodeView,
    output: TableView,
    i: int,
)
    requires
        sort_keys(sort, output) is Ok,
        0 <= i < sort.expr.len(),
    ensures
        ({
            let t = sort_keys(sort, output)->Ok_0;
            let n = sort.expr.len() as int;
            &&& t.cols.len() == n + 1
            &&& t.log_size == output.log_size
            &&& output.cols.contains(t.cols[n])
            &&& t.cols[n].field.name == "__activator__"@
            &&& t.cols[n].field.data_type == TypeView::Boolean
            &&& output.cols.contains(t.cols[i])
            &&& sort.expr[i].expr matches ExprView::Column(c) && looked_up_field(sort.input, c)
                matches Ok(k) && {
                &&& t.cols[i].field.name == sort.input[k].field.name
                &&& t.cols[i].field.data_type == sort.input[k].field.data_type
                &&& !t.cols[i].field.nullable
                &&& qualifier_of(t.cols[i].field) == qualifier_text(column_of(sort.input[k]))
            }
        }),
{
    let cols = output.cols;
    let n = sort.expr.len();
    let keys = output_keys(sort, cols, n)->Ok_0;
    let t = sort_keys(sort, output)->Ok_0;
    let p = is_activator_col();
    lemma_indices_where(cols, p);
    let at = indices_where(cols, p)[0];
    let a = cols[at];
    assert(p(a));
    assert forall|j: int| 0 <= j < n implies (#[trigger] keys[j]).field.name != a.field.name by {
        lemma_output_keys_in_order(sort, cols, n, j);
        let q = canonical_key(sort, j)->Ok_0;
        let f = is_key_column(column_of(q));
        lemma_indices_where(cols, f);
        assert(f(cols[indices_where(cols, f)[0]]));
    }
    lemma_field_index(keys, a.field);
    assert(t.cols == keys.push(a));
    lemma_output_keys_in_order(sort, cols, n, i);
    let q = canonical_key(sort, i)->Ok_0;
    let f = is_key_column(column_of(q));
    lemma_indices_where(cols, f);
    assert(f(cols[indices_where(cols, f)[0]]));
    assert(t.cols[i] == keys[i]);
    assert(cols.contains(keys[i]));
    assert(cols.contains(a));
}

proof fn lemma_cols_without_row_id(cols: Seq<ColView>, n: nat)
    requires
        n <= cols.len(),
    ensures
        forall|i: int|
            0 <= i < cols_without_row_id(cols, n).len() ==> cols.contains(
                #[trigger] cols_without_row_id(cols, n)[i],
            ) && cols_without_row_id(cols, n)[i].field.name != ROW_ID_COL_NAME@,
        forall|j: int|
            0 <= j < n && (#[trigger] cols[j]).field.name != ROW_ID_COL_NAME@ ==> exists|i: int|
                0 <= i < cols_without_row_id(cols, n).len() && (#[trigger] cols_without_row_id(
                    cols,
                    n,
                )[i]).field == cols[j].field,
    decreases n,
{
    if n > 0 {
        lemma_cols_without_row_id(cols, (n - 1) as nat);
        let before = cols_without_row_id(cols, (n - 1) as nat);
        let now = cols_without_row_id(cols, n);
        let c = cols[n - 1];
        lemma_field_index(before, c.field);
        assert(cols.contains(c));
        assert forall|j: int|
            0 <= j < n && (#[trigger] cols[j]).field.name != ROW_ID_COL_NAME@ implies exists|
            i: int,
        |
            0 <= i < now.len() && (#[trigger] now[i]).field == cols[j].field by {
            if j < n - 1 {
                let i = choose|i: int|
                    0 <= i < before.len() && (#[trigger] before[i]).field == cols[j].field;
                assert(now[i].field == cols[j].field);
            } else {
                match field_index(before, c.field) {
                    Some(k) => assert(now[k].field == c.field),
                    None => assert(now[before.len() as int].field == c.field),
                }
            }
        }
        assert forall|i: int| 0 <= i < now.len() implies cols.contains(#[trigger] now[i])
            && now[i].field.name != ROW_ID_COL_NAME@ by {
            if now[i] != c {
                assert(now[i] == before[i]);
            }
        }
    }
}

/// The rows before the sort are those of the input and the rows behind it those
/// of the output, polynomial for polynomial; only a row number is left out.
pub proof fn rows_are_taken_from_their_own_table(
    sort: SortNodeView,
    input: TableView,
    output: TableView,
)
    requires
        order_tables(sort, Some(input), Some(output)) is Ok,
    ensures
        ({
            let t = order_tables(sort, Some(input), Some(output))->Ok_0;
            &&& taken_from(t.input, input)
            &&& taken_from(t.output, output)
            &&& forall|i: int|
                0 <= i < t.keys.cols.len() ==> output.cols.contains(#[trigger] t.keys.cols[i])
        }),
{
    lemma_cols_without_row_id(input.cols, input.cols.len());
    lemma_cols_without_row_id(output.cols, output.cols.len());
    sort_keys_are_output_columns(sort, output);
    lemma_taken(input);
    lemma_taken(output);
}

/// Whether a table holds the columns of another over the same rows, all but
/// perhaps its row number.
pub open spec fn taken_from(t: TableView, from: TableView) -> bool {
    &&& t.log_size == from.log_size
    &&& forall|i: int| 0 <= i < t.cols.len() ==> from.cols.contains(#[trigger] t.cols[i])
    &&& forall|j: int|
        0 <= j < from.cols.len() && (#[trigger] from.cols[j]).field.name != "__row_id__"@
            ==> exists|i: int|
            0 <= i < t.cols.len() && (#[trigger] t.cols[i]).field == from.cols[j].field
}

pub proof fn lemma_taken(t: TableView)
    ensures
        taken_from(without_row_id(t), t),
{
    lemma_cols_without_row_id(t.cols, t.cols.len());
    let u = without_row_id(t);
    if u == t {
        assert forall|j: int|
            0 <= j < t.cols.len() && (#[trigger] t.cols[j]).field.name
                != "__row_id__"@ implies exists|i: int|
            0 <= i < u.cols.len() && (#[trigger] u.cols[i]).field == t.cols[j].field by {
            assert(u.cols[j].field == t.cols[j].field);
        }
    } else {
        assert(u.cols == cols_without_row_id(t.cols, t.cols.len()));
    }
}

/// The planned keys of an output are its own columns for the keys, in their
/// order; the activator stands behind all of them where the output has one.
pub proof fn planned_keys_stand_in_the_order_of_the_keys(
    s: Seq<QFieldView>,
    expr: Seq<SortView>,
    i: int,
)
    requires
        0 <= i < expr.len(),
        forall|j: int|
            0 <= j < expr.len() ==> ((#[trigger] expr[j]).expr matches ExprView::Column(c) && c.name
                != "__activator__"@),
    ensures
        key_projection(s, expr).len() >= expr.len(),
        key_projection(s, expr)[i] == resolved_expr(Resolution::Exact, s, expr[i].expr),
        (exists|k: int| 0 <= k < s.len() && (#[trigger] s[k]).field.name == "__activator__"@)
            ==> key_projection(s, expr).len() > expr.len() && key_projection(s, expr).last()
            == ExprView::Column(ColumnView { relation: None, name: "__activator__"@ }),
{
    let p = is_activator_field();
    lemma_first_index(s, p);
    let own = resolved_sorts(Resolution::Exact, s, expr);
    let keys = key_exprs(own);
    let q = is_activator_expr();
    assert forall|j: int| 0 <= j < keys.len() implies !q(#[trigger] keys[j]) by {
        assert(own[j].expr == resolved_expr(Resolution::Exact, s, expr[j].expr));
        lookup_keeps_name_and_qualifier(s, expr[j].expr->Column_0);
    }
    assert(keys[i] == own[i].expr);
    let exprs = if first_index(s, p) is Some {
        keys.push(ExprView::Column(ColumnView { relation: None, name: ACTIVATOR_COL_NAME@ }))
    } else {
        keys
    };
    if first_index(s, p) is Some {
        assert forall|j: int| 0 <= j < keys.len() implies !q(#[trigger] exprs[j]) by {
            assert(exprs[j] == keys[j]);
        }
        assert(q(exprs[keys.len() as int]));
        lemma_is_first(exprs, q, keys.len() as int);
    } else {
        lemma_no_first(exprs, q);
    }
    if exists|k: int| 0 <= k < s.len() && (#[trigger] s[k]).field.name == "__activator__"@ {
        let k = choose|k: int| 0 <= k < s.len() && (#[trigger] s[k]).field.name == "__activator__"@;
        assert(p(s[k]));
    }
}

/// What is reported of a key is what keeps it from being proved.
pub proof fn key_faults_are_what_is_reported(sort: SortNodeView, i: int, fault: KeyFault)
    requires
        0 <= i < sort.expr.len(),
        key_fault(sort, i) == Some(fault),
    ensures
        fault is NotColumn <==> !(sort.expr[i].expr is Column),
        sort.expr[i].expr matches ExprView::Column(c) ==> {
            let found = looked_up_field(sort.input, c);
            &&& fault is SystemColumn <==> c.name == "__activator__"@ || c.name == "__row_id__"@
            &&& fault is Unresolved ==> found is Err
            &&& fault is Nullable ==> found is Ok && sort.input[found->Ok_0].field.nullable
            &&& fault is UnsupportedType ==> found is Ok
                && !sort.input[found->Ok_0].field.nullable && !supported_type(
                sort.input[found->Ok_0].field.data_type,
            )
            &&& fault is DottedName ==> c.name.contains('.')
            &&& fault is DuplicateName ==> exists|j: int|
                0 <= j < i && ((#[trigger] sort.expr[j]).expr matches ExprView::Column(d) && d.name
                    == c.name)
        },
{
    if fault is DuplicateName {
        let c = sort.expr[i].expr->Column_0;
        let j = choose|j: int|
            0 <= j < i && (#[trigger] sort.expr[j]).expr is Column
                && sort.expr[j].expr->Column_0.name == c.name;
        assert(sort.expr[j].expr is Column);
    }
}

/// Sorting is proved of bounded integers and dates, and of nothing else.
pub proof fn only_bounded_integers_are_sorted(t: TypeView)
    ensures
        supported_type(t) <==> {
            ||| t == TypeView::Int8
            ||| t == TypeView::Int16
            ||| t == TypeView::Int32
            ||| t == TypeView::Int64
            ||| t == TypeView::UInt8
            ||| t == TypeView::UInt16
            ||| t == TypeView::UInt32
            ||| t == TypeView::UInt64
            ||| t == TypeView::Date32
        },
{
}

proof fn lemma_count_of(s: Seq<QFieldView>, p: spec_fn(QFieldView) -> bool)
    ensures
        indices_where(s, p).len() == s.filter(p).len(),
    decreases s.len(),
{
    reveal(Seq::filter);
    if s.len() > 0 {
        lemma_count_of(s.drop_last(), p);
    }
}

/// Planned keys pass exactly where there are as many data fields as keys, and
/// a single activator, which is Boolean.
pub proof fn planned_keys_have_one_activator(s: Seq<QFieldView>, expected: usize)
    ensures
        hint_error(s, expected) is None <==> {
            &&& s.filter(
                |q: QFieldView| q.field.name != "__activator__"@ && q.field.name != "__row_id__"@,
            ).len() == expected
            &&& exists|a: int|
                0 <= a < s.len() && (#[trigger] s[a]).field.name == "__activator__"@
                    && s[a].field.data_type == TypeView::Boolean && forall|j: int|
                    0 <= j < s.len() && j != a ==> (#[trigger] s[j]).field.name != "__activator__"@
        },
{
    let p = |q: QFieldView| q.field.name != "__activator__"@ && q.field.name != "__row_id__"@;
    assert(is_key_field() =~= p);
    lemma_count_of(s, is_key_field());
    let act = is_activator_field();
    let found = indices_where(s, act);
    lemma_indices_where(s, act);
    if found.len() == 1 {
        let a = found[0];
        assert(act(s[a]));
        assert forall|j: int| 0 <= j < s.len() && j != a implies (#[trigger] s[j]).field.name
            != "__activator__"@ by {
            if act(s[j]) {
                lemma_index_found(s, act, j);
            }
        }
        if s[a].field.data_type == TypeView::Boolean {
            assert(s[a].field.name == "__activator__"@);
        }
    }
    if exists|a: int|
        0 <= a < s.len() && (#[trigger] s[a]).field.name == "__activator__"@ && s[a].field.data_type
            == TypeView::Boolean && forall|j: int|
            0 <= j < s.len() && j != a ==> (#[trigger] s[j]).field.name != "__activator__"@ {
        let a = choose|a: int|
            0 <= a < s.len() && (#[trigger] s[a]).field.name == "__activator__"@
                && s[a].field.data_type == TypeView::Boolean && forall|j: int|
                0 <= j < s.len() && j != a ==> (#[trigger] s[j]).field.name != "__activator__"@;
        lemma_index_found(s, act, a);
        if found.len() > 1 {
            positions_increase(s, act, 0, 1);
            assert(act(s[found[0]]) && act(s[found[1]]));
            assert(false);
        }
    }
}

/// The sortedness check goes by the directions of the query, and by the column
/// that the query names.
pub proof fn checked_keys_keep_their_direction(x: SortSpec, k: SortView)
    requires
        spec_of(x, k),
    ensures
        x.asc == k.asc,
        x.nulls_first == k.nulls_first,
        k.expr matches ExprView::Column(c) && (c.relation is None ==> x.name@ == c.name) && (
        c.relation matches Some(r) ==> x.name@ == dotted(r) + "."@ + c.name),
{
}

/// A table that is missing is reported as such, the input before the output.
pub proof fn missing_tables_are_reported(
    sort: SortNodeView,
    input: Option<TableView>,
    output: Option<TableView>,
)
    requires
        sort_error(sort) is None,
    ensures
        input is None ==> order_tables(sort, input, output) == Err::<OrderView, SortError>(
            SortError::MissingInputTable,
        ),
        input is Some && output is None ==> order_tables(sort, input, output) == Err::<
            OrderView,
            SortError,
        >(SortError::MissingOutputTable),
{
}

/// A table whose schema lists a row number has none once it is stripped of it.
pub proof fn stripped_tables_have_no_row_number(t: TableView, s: SchemaView, k: int, i: int)
    requires
        t.schema == Some(s),
        0 <= k < s.fields.len(),
        s.fields[k].name == "__row_id__"@,
        0 <= i < without_row_id(t).cols.len(),
    ensures
        without_row_id(t).cols[i].field.name != "__row_id__"@,
        without_row_id(t).schema matches Some(u) && u.fields[i].name != "__row_id__"@,
{
    lemma_first_index(s.fields, is_row_id());
    assert(is_row_id()(s.fields[k]));
    lemma_cols_without_row_id(t.cols, t.cols.len());
}

} // verus!
