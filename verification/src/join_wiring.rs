//! The tables that a join's checks work on.
//!
//! The check of the activator gets the output's activator as its one column,
//! the check for repeated pairs the numbers of the two source rows, and the
//! count of matching pairs the key columns of the inputs and of the output.
use crate::aggregate::qualifier_text;
use crate::alias::auxiliary_of;
use crate::df_schema::columns_view;
use crate::grouped::{
    flat_cols, grouped_view, one_row_domain, regroup, regrouped, regrouped_columns_are_runs,
    row_segments, table_segments, GroupedCol, GroupedTable, GroupedTableView, GroupedView,
};
use crate::join::{
    data_cols, flat, grouped_activator, grouped_metadata, lemma_output_data, lemma_side_cols,
    output_lookup_base, output_side, partitioned, side_of, single_data_poly, source_column,
    JoinError, JoinFault, JoinLabel,
};
use crate::join_scope::{
    ensure_supported_join, unsupported, Join, JoinSide, JoinView, SRC_LEFT_COL_NAME,
    SRC_RIGHT_COL_NAME,
};
use crate::metadata::Metadata;
use crate::plan::{Column, ColumnView, Expr, ExprView, Schema, SchemaView};
use crate::schema::{plain_field, DataType, Field, FieldView, TypeView};
use crate::seqs::{
    indices_where, ints, lemma_index_found, lemma_indices_step, lemma_indices_where,
    positions_increase,
};
use crate::table::{
    activator_field, activator_field_view, col_fields, cols_view, field_qualifier, fields_of,
    find_name, is_system_column, is_system_name, lemma_name_index, name_index, qualifier_of,
    table_of, within, ColView, Poly, Table, TableView, TrackedColumn, ACTIVATOR_COL_NAME,
    ROW_ID_COL_NAME, STRING_LENGTH_SUFFIX,
};
use crate::text::{decimal, decimal_text, join_text, lemma_decimal_injective, same_text};
use vstd::prelude::*;
use vstd::string::*;

verus! {

/// The name of the column whose values are shown to be zero or one.
pub const BOOL_COL_NAME: &'static str = "data";

/// What the key columns of an input are renamed to, before their position.
pub const INPUT_KEY_PREFIX: &'static str = "__mp_key_";

/// What the key columns of the output are renamed to, before their position.
pub const OUTPUT_KEY_PREFIX: &'static str = "__mp_output_key_";

// ---------------------------------------------------------------------------
// The activator and the pairs of source rows
// ---------------------------------------------------------------------------

/// The output's activator as a column of truth values.
pub open spec fn bool_table(output: GroupedTableView) -> Result<TableView, JoinError> {
    match grouped_activator(output) {
        None => Err(JoinError::MissingActivator),
        Some(a) => Ok(
            table_of(
                seq![
                    ColView {
                        field: plain_field(BOOL_COL_NAME@, TypeView::Boolean, false),
                        poly: a,
                    },
                ],
                output.log_size,
            ),
        ),
    }
}

/// The output's activator as a column of truth values.
pub fn bool_table_from_output(output: &GroupedTable) -> (r: Result<Table, JoinError>)
    ensures
        match r {
            Ok(t) => bool_table(output@) == Ok::<TableView, JoinError>(t@),
            Err(e) => bool_table(output@) == Err::<TableView, JoinError>(e),
        },
{
    let activator: Poly = match flat(output).activator() {
        Some(a) => a,
        None => return Err(JoinError::MissingActivator),
    };
    let mut cols: Vec<TrackedColumn> = Vec::new();
    cols.push(
        TrackedColumn {
            field: Field::new(BOOL_COL_NAME, DataType::Boolean, false),
            poly: activator,
        },
    );
    assert(cols_view(cols@) =~= seq![
        ColView {
            field: plain_field(BOOL_COL_NAME@, TypeView::Boolean, false),
            poly: activator,
        },
    ]);
    Ok(Table::of(cols, output.log_size))
}

/// The columns of the table of source pairs.
pub open spec fn pair_cols(activator: Poly, left: Poly, right: Poly) -> Seq<ColView> {
    seq![
        ColView { field: activator_field_view(), poly: activator },
        ColView { field: plain_field(SRC_LEFT_COL_NAME@, TypeView::Int64, false), poly: left },
        ColView { field: plain_field(SRC_RIGHT_COL_NAME@, TypeView::Int64, false), poly: right },
    ]
}

/// The rows that every output row comes from, as a table of pairs. The two
/// columns bear fixed names whatever the source tables call theirs.
pub open spec fn nodup_table(
    output: GroupedTableView,
    src_left: GroupedTableView,
    src_right: GroupedTableView,
) -> Result<TableView, JoinError> {
    if !one_row_domain(output) {
        Err(JoinError::RowDomain(JoinLabel::Output))
    } else if !one_row_domain(src_left) {
        Err(JoinError::RowDomain(JoinLabel::SrcLeft))
    } else if !one_row_domain(src_right) {
        Err(JoinError::RowDomain(JoinLabel::SrcRight))
    } else if src_left.log_size != output.log_size || src_right.log_size != output.log_size {
        Err(JoinError::SourceDomain)
    } else {
        match grouped_activator(output) {
            None => Err(JoinError::MissingActivator),
            Some(a) => match source_column(src_left, JoinLabel::SrcLeft) {
                Err(e) => Err(e),
                Ok(l) => match source_column(src_right, JoinLabel::SrcRight) {
                    Err(e) => Err(e),
                    Ok(r) => if a.tracker != l.tracker || a.tracker != r.tracker {
                        Err(JoinError::SourceTrackers)
                    } else {
                        Ok(table_of(pair_cols(a, l, r), output.log_size))
                    },
                },
            },
        }
    }
}

/// The rows that every output row comes from, as a table of pairs.
pub fn nodup_table_from_output(
    output: &GroupedTable,
    src_left: &GroupedTable,
    src_right: &GroupedTable,
) -> (r: Result<Table, JoinError>)
    ensures
        match r {
            Ok(t) => nodup_table(output@, src_left@, src_right@) == Ok::<TableView, JoinError>(t@),
            Err(e) => nodup_table(output@, src_left@, src_right@) == Err::<TableView, JoinError>(
                e,
            ),
        },
{
    if !output.has_one_row_domain() {
        return Err(JoinError::RowDomain(JoinLabel::Output));
    }
    if !src_left.has_one_row_domain() {
        return Err(JoinError::RowDomain(JoinLabel::SrcLeft));
    }
    if !src_right.has_one_row_domain() {
        return Err(JoinError::RowDomain(JoinLabel::SrcRight));
    }
    if src_left.log_size != output.log_size || src_right.log_size != output.log_size {
        return Err(JoinError::SourceDomain);
    }
    let activator: Poly = match flat(output).activator() {
        Some(a) => a,
        None => return Err(JoinError::MissingActivator),
    };
    let left: Poly = match single_data_poly(src_left, JoinLabel::SrcLeft) {
        Ok(p) => p,
        Err(e) => return Err(e),
    };
    let right: Poly = match single_data_poly(src_right, JoinLabel::SrcRight) {
        Ok(p) => p,
        Err(e) => return Err(e),
    };
    if activator.tracker != left.tracker || activator.tracker != right.tracker {
        return Err(JoinError::SourceTrackers);
    }
    let mut cols: Vec<TrackedColumn> = Vec::new();
    cols.push(TrackedColumn { field: activator_field(), poly: activator });
    cols.push(
        TrackedColumn {
            field: Field::new(SRC_LEFT_COL_NAME, DataType::Int64, false),
            poly: left,
        },
    );
    cols.push(
        TrackedColumn {
            field: Field::new(SRC_RIGHT_COL_NAME, DataType::Int64, false),
            poly: right,
        },
    );
    assert(cols_view(cols@) =~= pair_cols(activator, left, right));
    Ok(Table::of(cols, output.log_size))
}

// ---------------------------------------------------------------------------
// The key columns
// ---------------------------------------------------------------------------

/// The column that one side of a key pair is.
pub open spec fn key_expr(pair: (ExprView, ExprView), side: JoinSide) -> ExprView {
    match side {
        JoinSide::Left => pair.0,
        JoinSide::Right => pair.1,
    }
}

/// The key columns of one side, for the first `n` pairs; none where one of
/// them is not a column.
pub open spec fn key_columns(
    on: Seq<(ExprView, ExprView)>,
    side: JoinSide,
    n: nat,
) -> Option<Seq<ColumnView>>
    decreases n,
{
    if n == 0 {
        Some(Seq::empty())
    } else {
        match key_columns(on, side, (n - 1) as nat) {
            None => None,
            Some(before) => match key_expr(on[n - 1], side) {
                ExprView::Column(c) => Some(before.push(c)),
                _ => None,
            },
        }
    }
}

proof fn lemma_no_key_columns(on: Seq<(ExprView, ExprView)>, side: JoinSide, n: nat, m: nat)
    requires
        n <= m,
        key_columns(on, side, n) is None,
    ensures
        key_columns(on, side, m) is None,
    decreases m,
{
    if n < m {
        lemma_no_key_columns(on, side, n, (m - 1) as nat);
    }
}

/// The key columns of one side of a join.
pub fn join_key_columns(join: &Join, side: JoinSide) -> (r: Option<Vec<Column>>)
    ensures
        match r {
            Some(c) => key_columns(join@.on, side, join@.on.len()) == Some(columns_view(c@)),
            None => key_columns(join@.on, side, join@.on.len()) is None,
        },
{
    let ghost on = join@.on;
    let mut out: Vec<Column> = Vec::new();
    let mut i: usize = 0;
    assert(columns_view(out@) =~= Seq::<ColumnView>::empty());
    while i < join.on.len()
        invariant
            i <= join.on@.len(),
            on == join@.on,
            on.len() == join.on@.len(),
            key_columns(on, side, i as nat) == Some(columns_view(out@)),
        decreases join.on@.len() - i,
    {
        assert(on[i as int] == (join.on@[i as int].0@, join.on@[i as int].1@));
        let expr: &Expr = match side {
            JoinSide::Left => &join.on[i].0,
            JoinSide::Right => &join.on[i].1,
        };
        match expr {
            Expr::Column(c) => {
                let ghost before = columns_view(out@);
                out.push(c.copy());
                assert(columns_view(out@) =~= before.push(c@));
            },
            _ => {
                proof {
                    lemma_no_key_columns(on, side, (i + 1) as nat, on.len());
                }
                return None;
            },
        }
        i = i + 1;
    }
    Some(out)
}

/// The columns with the named one behind them, unless it is there.
pub open spec fn with_column(columns: Seq<ColumnView>, name: Seq<char>) -> Seq<ColumnView> {
    if exists|i: int| 0 <= i < columns.len() && (#[trigger] columns[i]).name == name {
        columns
    } else {
        columns.push(ColumnView { relation: None, name })
    }
}

/// The key columns with the row number, where asked for, and the activator.
pub open spec fn ordered_columns(keys: Seq<ColumnView>, row_id: bool) -> Seq<ColumnView> {
    with_column(
        if row_id {
            with_column(keys, ROW_ID_COL_NAME@)
        } else {
            keys
        },
        ACTIVATOR_COL_NAME@,
    )
}

fn add_column(columns: &mut Vec<Column>, name: &str)
    ensures
        columns_view(final(columns)@) == with_column(columns_view(old(columns)@), name@),
{
    let ghost before = columns_view(columns@);
    let mut i: usize = 0;
    while i < columns.len()
        invariant
            i <= columns@.len(),
            before == columns_view(columns@),
            columns@ == old(columns)@,
            forall|j: int| 0 <= j < i ==> (#[trigger] before[j]).name != name@,
        decreases columns@.len() - i,
    {
        assert(before[i as int] == columns@[i as int]@);
        if same_text(columns[i].name.as_str(), name) {
            assert(before[i as int].name == name@);
            return ;
        }
        i = i + 1;
    }
    columns.push(Column::new_unqualified(name));
    assert(columns_view(columns@) =~= before.push(ColumnView { relation: None, name: name@ }));
}

/// The key columns with the row number, where asked for, and the activator.
pub fn ordered_join_columns(keys: Vec<Column>, row_id: bool) -> (r: Vec<Column>)
    ensures
        columns_view(r@) == ordered_columns(columns_view(keys@), row_id),
{
    let mut out: Vec<Column> = keys;
    if row_id {
        add_column(&mut out, ROW_ID_COL_NAME);
    }
    add_column(&mut out, ACTIVATOR_COL_NAME);
    out
}

/// Satisfied by the columns that a reference means: of its name, and under
/// its qualifier where it has one.
pub open spec fn meant_by(c: ColumnView) -> spec_fn(GroupedView) -> bool {
    |g: GroupedView|
        g.field.name == c.name && (qualifier_text(c) matches Some(q) ==> qualifier_of(g.field)
            == Some(q))
}

/// Whether a reference means a column.
pub fn field_matches_column(field: &Field, column: &Column) -> (r: bool)
    ensures
        r == (field@.name == column@.name && (qualifier_text(column@) matches Some(q)
            ==> qualifier_of(field@) == Some(q))),
{
    if !same_text(field.name.as_str(), column.name.as_str()) {
        return false;
    }
    match &column.relation {
        None => true,
        Some(relation) => {
            let text: String = relation.to_text();
            match field_qualifier(field) {
                Some(q) => same_text(q.as_str(), text.as_str()),
                None => false,
            }
        },
    }
}

/// Whose keys are looked for.
#[derive(Debug, Clone, Copy, PartialEq, Eq, Structural)]
pub struct KeysOf {
    pub side: JoinSide,
    /// The keys are those of the output, not of the input.
    pub output: bool,
}

/// Position of the one column that a reference means.
pub open spec fn single_match(
    cols: Seq<GroupedView>,
    c: ColumnView,
    keys: KeysOf,
    key: nat,
) -> Result<int, JoinError> {
    let found = indices_where(cols, meant_by(c));
    if found.len() == 1 {
        Ok(found[0])
    } else if found.len() == 0 {
        Err(JoinError::MissingKey { side: keys.side, output: keys.output, key: key as usize })
    } else {
        Err(
            JoinError::AmbiguousKey {
                side: keys.side,
                output: keys.output,
                key: key as usize,
                candidates: found.len() as usize,
            },
        )
    }
}

fn matching_col(cols: &Vec<GroupedCol>, column: &Column, keys: KeysOf, key: usize) -> (r: Result<
    usize,
    JoinError,
>)
    ensures
        match r {
            Ok(i) => single_match(grouped_view(cols@), column@, keys, key as nat) == Ok::<
                int,
                JoinError,
            >(i as int) && i < cols@.len(),
            Err(e) => single_match(grouped_view(cols@), column@, keys, key as nat) == Err::<
                int,
                JoinError,
            >(e),
        },
{
    let ghost p = meant_by(column@);
    let ghost views = grouped_view(cols@);
    let mut found: Vec<usize> = Vec::new();
    let mut i: usize = 0;
    assert(ints(found@) =~= indices_where(views.take(0), p));
    while i < cols.len()
        invariant
            i <= cols@.len(),
            p == meant_by(column@),
            views == grouped_view(cols@),
            ints(found@) == indices_where(views.take(i as int), p),
            within(found@, cols@.len()),
        decreases cols@.len() - i,
    {
        proof {
            lemma_indices_step(views, p, i as int);
            assert(views[i as int] == cols@[i as int]@);
        }
        if field_matches_column(&cols[i].field, column) {
            let ghost before = ints(found@);
            found.push(i);
            assert(ints(found@) =~= before.push(i as int));
        }
        i = i + 1;
    }
    assert(views.take(views.len() as int) =~= views);
    assert(ints(found@).len() == found@.len());
    if found.len() == 1 {
        assert(ints(found@)[0] == found@[0]);
        Ok(found[0])
    } else if found.len() == 0 {
        Err(JoinError::MissingKey { side: keys.side, output: keys.output, key })
    } else {
        Err(
            JoinError::AmbiguousKey {
                side: keys.side,
                output: keys.output,
                key,
                candidates: found.len(),
            },
        )
    }
}

// ---------------------------------------------------------------------------
// Selections of key columns
// ---------------------------------------------------------------------------

/// Position of the column with the given field, if there is one.
pub open spec fn grouped_index(s: Seq<GroupedView>, f: FieldView) -> Option<int>
    decreases s.len(),
{
    if s.len() == 0 {
        None
    } else {
        match grouped_index(s.drop_last(), f) {
            Some(i) => Some(i),
            None => if s.last().field == f {
                Some(s.len() - 1)
            } else {
                None
            },
        }
    }
}

/// The columns with one under its field: in place of the column that has the
/// field, or behind all.
pub open spec fn grouped_insert(s: Seq<GroupedView>, g: GroupedView) -> Seq<GroupedView> {
    match grouped_index(s, g.field) {
        Some(i) => s.update(i, g),
        None => s.push(g),
    }
}

proof fn lemma_grouped_index(s: Seq<GroupedView>, f: FieldView)
    ensures
        match grouped_index(s, f) {
            Some(i) => 0 <= i < s.len() && s[i].field == f && forall|j: int|
                0 <= j < i ==> (#[trigger] s[j]).field != f,
            None => forall|j: int| 0 <= j < s.len() ==> (#[trigger] s[j]).field != f,
        },
    decreases s.len(),
{
    if s.len() > 0 {
        lemma_grouped_index(s.drop_last(), f);
        assert forall|j: int| 0 <= j < s.len() - 1 implies s.drop_last()[j] == #[trigger] s[j] by {}
    }
}

proof fn lemma_is_grouped_index(s: Seq<GroupedView>, f: FieldView, i: int)
    requires
        0 <= i < s.len(),
        s[i].field == f,
        forall|j: int| 0 <= j < i ==> (#[trigger] s[j]).field != f,
    ensures
        grouped_index(s, f) == Some(i),
{
    lemma_grouped_index(s, f);
    match grouped_index(s, f) {
        Some(k) => {
            if k < i {
                assert(s[k].field != f);
            }
            if i < k {
                assert(s[i].field != f);
            }
        },
        None => {
            assert(s[i].field != f);
        },
    }
}

fn insert_grouped(cols: &mut Vec<GroupedCol>, g: GroupedCol)
    ensures
        grouped_view(final(cols)@) == grouped_insert(grouped_view(old(cols)@), g@),
{
    let ghost before = grouped_view(cols@);
    let mut i: usize = 0;
    while i < cols.len()
        invariant
            i <= cols@.len(),
            cols@ == old(cols)@,
            before == grouped_view(cols@),
            forall|j: int| 0 <= j < i ==> (#[trigger] before[j]).field != g@.field,
        decreases cols@.len() - i,
    {
        assert(before[i as int] == cols@[i as int]@);
        if cols[i].field.same(&g.field) {
            proof {
                lemma_is_grouped_index(before, g@.field, i as int);
            }
            cols.set(i, g);
            assert(grouped_view(cols@) =~= before.update(i as int, g@));
            return ;
        }
        i = i + 1;
    }
    proof {
        lemma_grouped_index(before, g@.field);
    }
    cols.push(g);
    assert(grouped_view(cols@) =~= before.push(g@));
}

/// The name of a key column by its position.
pub open spec fn key_name(output: bool, k: nat) -> Seq<char> {
    (if output {
        OUTPUT_KEY_PREFIX@
    } else {
        INPUT_KEY_PREFIX@
    }) + decimal(k)
}

/// A column under the name of a key.
pub open spec fn as_key(g: GroupedView, output: bool, k: nat) -> GroupedView {
    GroupedView {
        field: plain_field(key_name(output, k), g.field.data_type, g.field.nullable),
        ..g
    }
}

/// The columns that the first `n` references mean, and the number of keys
/// among them. The keys are renamed by their position; system columns of an
/// input keep their field and are no keys.
pub open spec fn selected_keys(
    cols: Seq<GroupedView>,
    columns: Seq<ColumnView>,
    keys: KeysOf,
    n: nat,
) -> Result<(Seq<GroupedView>, nat), JoinError>
    decreases n,
{
    if n == 0 {
        Ok((Seq::empty(), 0))
    } else {
        match selected_keys(cols, columns, keys, (n - 1) as nat) {
            Err(e) => Err(e),
            Ok((before, k)) => match single_match(cols, columns[n - 1], keys, (n - 1) as nat) {
                Err(e) => Err(e),
                Ok(i) => if !keys.output && is_system_name(cols[i].field.name) {
                    Ok((grouped_insert(before, cols[i]), k))
                } else {
                    Ok((grouped_insert(before, as_key(cols[i], keys.output, k)), k + 1))
                },
            },
        }
    }
}

/// A table of columns with segments whose schema lists the segments.
pub open spec fn grouped_table(
    cols: Seq<GroupedView>,
    metadata: Map<Seq<char>, Seq<char>>,
    log_size: usize,
) -> GroupedTableView {
    GroupedTableView {
        schema: Some(
            SchemaView {
                fields: col_fields(flat_cols(row_segments(cols, cols.len()))),
                metadata,
            },
        ),
        cols,
        log_size,
    }
}

/// The key columns of a table, with the system columns that were asked for.
pub open spec fn selection(
    t: GroupedTableView,
    columns: Seq<ColumnView>,
    keys: KeysOf,
) -> Result<GroupedTableView, JoinError> {
    match selected_keys(t.cols, columns, keys, columns.len()) {
        Err(e) => Err(e),
        Ok((cols, _)) => Ok(
            grouped_table(
                cols,
                if keys.output {
                    Map::empty()
                } else {
                    grouped_metadata(t)
                },
                t.log_size,
            ),
        ),
    }
}

proof fn lemma_selection_fault(
    cols: Seq<GroupedView>,
    columns: Seq<ColumnView>,
    keys: KeysOf,
    n: nat,
    m: nat,
)
    requires
        n <= m,
        selected_keys(cols, columns, keys, n) is Err,
    ensures
        selected_keys(cols, columns, keys, m) == selected_keys(cols, columns, keys, n),
    decreases m,
{
    if n < m {
        lemma_selection_fault(cols, columns, keys, n, (m - 1) as nat);
    }
}

/// The key columns of a table, with the system columns that were asked for.
/// A column that the references name twice is there twice.
pub fn select_tracked_columns(table: &GroupedTable, columns: &Vec<Column>, keys: KeysOf) -> (r:
    Result<GroupedTable, JoinError>)
    ensures
        match r {
            Ok(t) => selection(table@, columns_view(columns@), keys) == Ok::<
                GroupedTableView,
                JoinError,
            >(t@),
            Err(e) => selection(table@, columns_view(columns@), keys) == Err::<
                GroupedTableView,
                JoinError,
            >(e),
        },
{
    let ghost refs = columns_view(columns@);
    let ghost views = grouped_view(table.cols@);
    let mut out: Vec<GroupedCol> = Vec::new();
    let mut k: usize = 0;
    let mut i: usize = 0;
    assert(grouped_view(out@) =~= Seq::<GroupedView>::empty());
    while i < columns.len()
        invariant
            i <= columns@.len(),
            k <= i,
            refs == columns_view(columns@),
            views == grouped_view(table.cols@),
            selected_keys(views, refs, keys, i as nat) == Ok::<
                (Seq<GroupedView>, nat),
                JoinError,
            >((grouped_view(out@), k as nat)),
        decreases columns@.len() - i,
    {
        assert(refs[i as int] == columns@[i as int]@);
        let at: usize = match matching_col(&table.cols, &columns[i], keys, i) {
            Ok(at) => at,
            Err(e) => {
                proof {
                    lemma_selection_fault(views, refs, keys, (i + 1) as nat, refs.len());
                }
                return Err(e);
            },
        };
        let g: &GroupedCol = &table.cols[at];
        assert(views[at as int] == g@);
        if !keys.output && is_system_column(g.field.name.as_str()) {
            insert_grouped(&mut out, g.rebind(g.field.copy()));
        } else {
            let prefix: &'static str = if keys.output {
                OUTPUT_KEY_PREFIX
            } else {
                INPUT_KEY_PREFIX
            };
            let name: String = join_text(prefix, decimal_text(k).as_str());
            let field: Field = Field::new(name.as_str(), g.field.data_type.copy(), g.field.nullable);
            insert_grouped(&mut out, g.rebind(field));
            k = k + 1;
        }
        i = i + 1;
    }
    let metadata: Metadata = if keys.output {
        Metadata::new()
    } else {
        match &table.schema {
            Some(s) => s.metadata.copy(),
            None => Metadata::new(),
        }
    };
    let shape = GroupedTable { schema: None, cols: out, log_size: table.log_size };
    let (flattened, _): (Vec<TrackedColumn>, u128) = shape.flatten();
    let fields: Vec<Field> = fields_of(&flattened);
    Ok(
        GroupedTable {
            schema: Some(Schema { fields, metadata }),
            cols: shape.cols,
            log_size: table.log_size,
        },
    )
}

// ---------------------------------------------------------------------------
// Matching pairs
// ---------------------------------------------------------------------------

/// Whether a table has a segment of the given name.
pub open spec fn has_segment(t: GroupedTableView, name: Seq<char>) -> bool {
    name_index(flat_cols(table_segments(t)), name) is Some
}

fn table_has_segment(table: &GroupedTable, name: &str) -> (r: bool)
    ensures
        r == has_segment(table@, name@),
{
    flat(table).poly_by_name(name).is_some()
}

/// One side of the output as a table of columns with segments.
pub open spec fn grouped_base(t: TableView) -> GroupedTableView {
    GroupedTableView {
        schema: t.schema,
        cols: regrouped(t.cols, t.cols.len()),
        log_size: t.log_size,
    }
}

/// The output's activator alone, under its own field.
pub open spec fn activator_table(output: GroupedTableView) -> TableView {
    let cols = flat_cols(table_segments(output));
    table_of(seq![cols[name_index(cols, ACTIVATOR_COL_NAME@)->0]], output.log_size)
}

/// The tables from which matching pairs are counted.
#[derive(Debug)]
pub struct MatchPairTables {
    pub input_left: GroupedTable,
    pub input_right: GroupedTable,
    pub output_left_keys: GroupedTable,
    pub output_right_keys: GroupedTable,
    pub output_activator: Table,
}

/// Mathematical counterpart of [`MatchPairTables`].
#[verifier::ext_equal]
pub struct MatchPairView {
    pub input_left: GroupedTableView,
    pub input_right: GroupedTableView,
    pub output_left_keys: GroupedTableView,
    pub output_right_keys: GroupedTableView,
    pub output_activator: TableView,
}

impl MatchPairTables {
    /// The tables as mathematical values.
    pub open spec fn view(&self) -> MatchPairView {
        MatchPairView {
            input_left: self.input_left@,
            input_right: self.input_right@,
            output_left_keys: self.output_left_keys@,
            output_right_keys: self.output_right_keys@,
            output_activator: self.output_activator@,
        }
    }
}

/// The keys of the output for one side.
pub open spec fn output_keys(
    output: GroupedTableView,
    left: GroupedTableView,
    right: GroupedTableView,
    columns: Seq<ColumnView>,
    side: JoinSide,
) -> Result<GroupedTableView, JoinError> {
    match output_side(output, left, right, side) {
        Err(e) => Err(e),
        Ok(base) => selection(grouped_base(base), columns, KeysOf { side, output: true }),
    }
}

/// What keeps the inputs and the output from being counted.
pub open spec fn match_pair_fault(
    output: GroupedTableView,
    left: GroupedTableView,
    right: GroupedTableView,
) -> Option<JoinError> {
    if !one_row_domain(output) {
        Some(JoinError::RowDomain(JoinLabel::Output))
    } else if !one_row_domain(left) {
        Some(JoinError::RowDomain(JoinLabel::JoinLeftInput))
    } else if !one_row_domain(right) {
        Some(JoinError::RowDomain(JoinLabel::JoinRightInput))
    } else if !has_segment(left, ACTIVATOR_COL_NAME@) {
        Some(JoinError::MissingSideActivator(JoinSide::Left))
    } else if !has_segment(right, ACTIVATOR_COL_NAME@) {
        Some(JoinError::MissingSideActivator(JoinSide::Right))
    } else {
        None
    }
}

/// The key columns of an input, with its row number, where it has one, and
/// its activator.
pub open spec fn input_keys(
    input: GroupedTableView,
    columns: Seq<ColumnView>,
    side: JoinSide,
) -> Result<GroupedTableView, JoinError> {
    selection(
        input,
        ordered_columns(columns, has_segment(input, ROW_ID_COL_NAME@)),
        KeysOf { side, output: false },
    )
}

/// The tables from which matching pairs are counted.
pub open spec fn match_pair(
    join: JoinView,
    output: GroupedTableView,
    left: GroupedTableView,
    right: GroupedTableView,
) -> Result<MatchPairView, JoinError> {
    match match_pair_fault(output, left, right) {
        Some(e) => Err(e),
        None => match (
            key_columns(join.on, JoinSide::Left, join.on.len()),
            key_columns(join.on, JoinSide::Right, join.on.len()),
        ) {
            (Some(lk), Some(rk)) => match input_keys(left, lk, JoinSide::Left) {
                Err(e) => Err(e),
                Ok(input_left) => match input_keys(right, rk, JoinSide::Right) {
                    Err(e) => Err(e),
                    Ok(input_right) => match output_keys(output, left, right, lk, JoinSide::Left) {
                        Err(e) => Err(e),
                        Ok(output_left_keys) => match output_keys(
                            output,
                            left,
                            right,
                            rk,
                            JoinSide::Right,
                        ) {
                            Err(e) => Err(e),
                            Ok(output_right_keys) => Ok(
                                MatchPairView {
                                    input_left,
                                    input_right,
                                    output_left_keys,
                                    output_right_keys,
                                    output_activator: activator_table(output),
                                },
                            ),
                        },
                    },
                },
            },
            _ => Err(JoinError::KeyNotColumn),
        },
    }
}

fn find_match_pair_fault(output: &GroupedTable, left: &GroupedTable, right: &GroupedTable) -> (r:
    Option<JoinError>)
    ensures
        r == match_pair_fault(output@, left@, right@),
{
    if !output.has_one_row_domain() {
        return Some(JoinError::RowDomain(JoinLabel::Output));
    }
    if !left.has_one_row_domain() {
        return Some(JoinError::RowDomain(JoinLabel::JoinLeftInput));
    }
    if !right.has_one_row_domain() {
        return Some(JoinError::RowDomain(JoinLabel::JoinRightInput));
    }
    if !table_has_segment(left, ACTIVATOR_COL_NAME) {
        return Some(JoinError::MissingSideActivator(JoinSide::Left));
    }
    if !table_has_segment(right, ACTIVATOR_COL_NAME) {
        return Some(JoinError::MissingSideActivator(JoinSide::Right));
    }
    None
}

fn copy_columns(columns: &Vec<Column>) -> (r: Vec<Column>)
    ensures
        columns_view(r@) == columns_view(columns@),
{
    let mut out: Vec<Column> = Vec::new();
    let mut i: usize = 0;
    while i < columns.len()
        invariant
            i <= columns@.len(),
            out@.len() == i,
            forall|j: int| 0 <= j < i ==> (#[trigger] out@[j])@ == columns@[j]@,
        decreases columns@.len() - i,
    {
        out.push(columns[i].copy());
        i = i + 1;
    }
    assert(columns_view(out@) =~= columns_view(columns@));
    out
}

fn select_input_keys(input: &GroupedTable, columns: &Vec<Column>, side: JoinSide) -> (r: Result<
    GroupedTable,
    JoinError,
>)
    ensures
        match r {
            Ok(t) => input_keys(input@, columns_view(columns@), side) == Ok::<
                GroupedTableView,
                JoinError,
            >(t@),
            Err(e) => input_keys(input@, columns_view(columns@), side) == Err::<
                GroupedTableView,
                JoinError,
            >(e),
        },
{
    let with_row_id: bool = table_has_segment(input, ROW_ID_COL_NAME);
    let ordered: Vec<Column> = ordered_join_columns(copy_columns(columns), with_row_id);
    select_tracked_columns(input, &ordered, KeysOf { side, output: false })
}

/// The keys of the output for one side, in the order of the join's pairs.
pub fn select_output_join_keys(
    output: &GroupedTable,
    left: &GroupedTable,
    right: &GroupedTable,
    columns: &Vec<Column>,
    side: JoinSide,
) -> (r: Result<GroupedTable, JoinError>)
    ensures
        match r {
            Ok(t) => output_keys(output@, left@, right@, columns_view(columns@), side) == Ok::<
                GroupedTableView,
                JoinError,
            >(t@),
            Err(e) => output_keys(output@, left@, right@, columns_view(columns@), side) == Err::<
                GroupedTableView,
                JoinError,
            >(e),
        },
{
    let base: Table = match output_lookup_base(output, left, right, side) {
        Ok(t) => t,
        Err(e) => return Err(e),
    };
    let cols: Vec<GroupedCol> = regroup(&base.cols);
    let grouped = GroupedTable { schema: base.schema, cols, log_size: base.log_size };
    select_tracked_columns(&grouped, columns, KeysOf { side, output: true })
}

fn output_activator_table(output: &GroupedTable) -> (r: Table)
    requires
        has_segment(output@, ACTIVATOR_COL_NAME@),
    ensures
        r@ == activator_table(output@),
{
    let t: Table = flat(output);
    let ghost cols = flat_cols(table_segments(output@));
    let mut kept: Vec<TrackedColumn> = Vec::new();
    match find_name(&t.cols, ACTIVATOR_COL_NAME) {
        Some(i) => {
            assert(t@.cols[i as int] == t.cols@[i as int]@);
            kept.push(t.cols[i].copy());
            assert(cols_view(kept@) =~= seq![cols[i as int]]);
        },
        None => {},
    }
    Table::of(kept, output.log_size)
}

/// The tables from which matching pairs are counted. Prover and verifier
/// form them from their own handles alike.
pub fn build_match_pair_tables(
    join: &Join,
    output: &GroupedTable,
    left: &GroupedTable,
    right: &GroupedTable,
) -> (r: Result<MatchPairTables, JoinError>)
    ensures
        match r {
            Ok(t) => match_pair(join@, output@, left@, right@) == Ok::<MatchPairView, JoinError>(
                t@,
            ),
            Err(e) => match_pair(join@, output@, left@, right@) == Err::<MatchPairView, JoinError>(
                e,
            ),
        },
{
    match find_match_pair_fault(output, left, right) {
        Some(e) => return Err(e),
        None => {},
    }
    let left_keys: Vec<Column> = match join_key_columns(join, JoinSide::Left) {
        Some(c) => c,
        None => return Err(JoinError::KeyNotColumn),
    };
    let right_keys: Vec<Column> = match join_key_columns(join, JoinSide::Right) {
        Some(c) => c,
        None => return Err(JoinError::KeyNotColumn),
    };
    let input_left: GroupedTable = match select_input_keys(left, &left_keys, JoinSide::Left) {
        Ok(t) => t,
        Err(e) => return Err(e),
    };
    let input_right: GroupedTable = match select_input_keys(right, &right_keys, JoinSide::Right) {
        Ok(t) => t,
        Err(e) => return Err(e),
    };
    let output_left_keys: GroupedTable = match select_output_join_keys(
        output,
        left,
        right,
        &left_keys,
        JoinSide::Left,
    ) {
        Ok(t) => t,
        Err(e) => return Err(e),
    };
    let output_right_keys: GroupedTable = match select_output_join_keys(
        output,
        left,
        right,
        &right_keys,
        JoinSide::Right,
    ) {
        Ok(t) => t,
        Err(e) => return Err(e),
    };
    let output_activator: Table = output_activator_table(output);
    Ok(
        MatchPairTables {
            input_left,
            input_right,
            output_left_keys,
            output_right_keys,
            output_activator,
        },
    )
}

// ---------------------------------------------------------------------------
// Wiring the checks
// ---------------------------------------------------------------------------

/// The tables of a join's checks.
#[derive(Debug)]
pub struct JoinWiring {
    pub activator: Table,
    pub source_pairs: Table,
    pub match_pair: MatchPairTables,
}

/// Mathematical counterpart of [`JoinWiring`].
#[verifier::ext_equal]
pub struct JoinWiringView {
    pub activator: TableView,
    pub source_pairs: TableView,
    pub match_pair: MatchPairView,
}

impl JoinWiring {
    /// The tables as mathematical values.
    pub open spec fn view(&self) -> JoinWiringView {
        JoinWiringView {
            activator: self.activator@,
            source_pairs: self.source_pairs@,
            match_pair: self.match_pair@,
        }
    }
}

/// The first table of a join that is not over its own rows.
pub open spec fn domain_fault(
    output: GroupedTableView,
    left: GroupedTableView,
    right: GroupedTableView,
    src_left: GroupedTableView,
    src_right: GroupedTableView,
) -> Option<JoinError> {
    if !one_row_domain(output) {
        Some(JoinError::RowDomain(JoinLabel::Output))
    } else if !one_row_domain(left) {
        Some(JoinError::RowDomain(JoinLabel::JoinLeftInput))
    } else if !one_row_domain(right) {
        Some(JoinError::RowDomain(JoinLabel::JoinRightInput))
    } else if !one_row_domain(src_left) {
        Some(JoinError::RowDomain(JoinLabel::SrcLeft))
    } else if !one_row_domain(src_right) {
        Some(JoinError::RowDomain(JoinLabel::SrcRight))
    } else {
        None
    }
}

/// The tables of a join's checks. A join of an unsupported shape has none.
pub open spec fn join_wiring(
    join: JoinView,
    output: GroupedTableView,
    left: GroupedTableView,
    right: GroupedTableView,
    src_left: GroupedTableView,
    src_right: GroupedTableView,
) -> Result<JoinWiringView, JoinFault> {
    match unsupported(join) {
        Some(u) => Err(JoinFault::Unsupported(u)),
        None => match domain_fault(output, left, right, src_left, src_right) {
            Some(e) => Err(JoinFault::Wiring(e)),
            None => match bool_table(output) {
                Err(e) => Err(JoinFault::Wiring(e)),
                Ok(activator) => match nodup_table(output, src_left, src_right) {
                    Err(e) => Err(JoinFault::Wiring(e)),
                    Ok(source_pairs) => match match_pair(join, output, left, right) {
                        Err(e) => Err(JoinFault::Wiring(e)),
                        Ok(match_pair) => Ok(
                            JoinWiringView { activator, source_pairs, match_pair },
                        ),
                    },
                },
            },
        },
    }
}

fn find_domain_fault(
    output: &GroupedTable,
    left: &GroupedTable,
    right: &GroupedTable,
    src_left: &GroupedTable,
    src_right: &GroupedTable,
) -> (r: Option<JoinError>)
    ensures
        r == domain_fault(output@, left@, right@, src_left@, src_right@),
{
    if !output.has_one_row_domain() {
        Some(JoinError::RowDomain(JoinLabel::Output))
    } else if !left.has_one_row_domain() {
        Some(JoinError::RowDomain(JoinLabel::JoinLeftInput))
    } else if !right.has_one_row_domain() {
        Some(JoinError::RowDomain(JoinLabel::JoinRightInput))
    } else if !src_left.has_one_row_domain() {
        Some(JoinError::RowDomain(JoinLabel::SrcLeft))
    } else if !src_right.has_one_row_domain() {
        Some(JoinError::RowDomain(JoinLabel::SrcRight))
    } else {
        None
    }
}

/// The tables of a join's checks, from the tables of the plan and the tables
/// of source rows.
pub fn initialize_gadgets(
    join: &Join,
    output: &GroupedTable,
    left: &GroupedTable,
    right: &GroupedTable,
    src_left: &GroupedTable,
    src_right: &GroupedTable,
) -> (r: Result<JoinWiring, JoinFault>)
    ensures
        match r {
            Ok(w) => join_wiring(join@, output@, left@, right@, src_left@, src_right@) == Ok::<
                JoinWiringView,
                JoinFault,
            >(w@),
            Err(e) => join_wiring(join@, output@, left@, right@, src_left@, src_right@) == Err::<
                JoinWiringView,
                JoinFault,
            >(e),
        },
{
    match ensure_supported_join(join) {
        Ok(_) => {},
        Err(u) => return Err(JoinFault::Unsupported(u)),
    }
    match find_domain_fault(output, left, right, src_left, src_right) {
        Some(e) => return Err(JoinFault::Wiring(e)),
        None => {},
    }
    let activator: Table = match bool_table_from_output(output) {
        Ok(t) => t,
        Err(e) => return Err(JoinFault::Wiring(e)),
    };
    let source_pairs: Table = match nodup_table_from_output(output, src_left, src_right) {
        Ok(t) => t,
        Err(e) => return Err(JoinFault::Wiring(e)),
    };
    let match_pair: MatchPairTables = match build_match_pair_tables(join, output, left, right) {
        Ok(t) => t,
        Err(e) => return Err(JoinFault::Wiring(e)),
    };
    Ok(JoinWiring { activator, source_pairs, match_pair })
}

// ---------------------------------------------------------------------------
// Laws
// ---------------------------------------------------------------------------

/// A reference with a qualifier means no column that is not annotated with
/// that qualifier, even where it is the only column of its name.
pub proof fn qualified_keys_never_fall_back(
    cols: Seq<GroupedView>,
    c: ColumnView,
    keys: KeysOf,
    key: nat,
)
    requires
        single_match(cols, c, keys, key) is Ok,
        qualifier_text(c) is Some,
    ensures
        0 <= single_match(cols, c, keys, key)->Ok_0 < cols.len(),
        cols[single_match(cols, c, keys, key)->Ok_0].field.name == c.name,
        qualifier_of(cols[single_match(cols, c, keys, key)->Ok_0].field) == qualifier_text(c),
{
    let p = meant_by(c);
    lemma_indices_where(cols, p);
    let found = indices_where(cols, p);
    assert(p(cols[found[0]]));
}

proof fn lemma_output_keys(
    cols: Seq<GroupedView>,
    columns: Seq<ColumnView>,
    side: JoinSide,
    n: nat,
)
    requires
        selected_keys(cols, columns, KeysOf { side, output: true }, n) is Ok,
    ensures
        ({
            let (out, k) = selected_keys(cols, columns, KeysOf { side, output: true }, n)->Ok_0;
            &&& k == n
            &&& out.len() == n
            &&& forall|i: int|
                0 <= i < n ==> #[trigger] out[i] == as_key(
                    cols[single_match(
                        cols,
                        columns[i],
                        KeysOf { side, output: true },
                        i as nat,
                    )->Ok_0],
                    true,
                    i as nat,
                )
        }),
    decreases n,
{
    let keys = KeysOf { side, output: true };
    if n > 0 {
        lemma_output_keys(cols, columns, side, (n - 1) as nat);
        let (before, k) = selected_keys(cols, columns, keys, (n - 1) as nat)->Ok_0;
        let g = as_key(
            cols[single_match(cols, columns[n - 1], keys, (n - 1) as nat)->Ok_0],
            true,
            k,
        );
        lemma_grouped_index(before, g.field);
        match grouped_index(before, g.field) {
            Some(i) => {
                assert(before[i].field.name == key_name(true, i as nat));
                let p = OUTPUT_KEY_PREFIX@;
                assert(decimal(i as nat) =~= (p + decimal(i as nat)).skip(p.len() as int));
                assert(decimal(k) =~= (p + decimal(k)).skip(p.len() as int));
                lemma_decimal_injective(i as nat, k);
            },
            None => {},
        }
    }
}

/// The output's table of keys has one column per pair of the join, in the
/// order of the pairs, each with all the segments of the column it was made
/// from; keys that name one column twice are not merged.
pub proof fn output_keys_are_positional(
    t: GroupedTableView,
    columns: Seq<ColumnView>,
    side: JoinSide,
    i: int,
)
    requires
        selection(t, columns, KeysOf { side, output: true }) is Ok,
        0 <= i < columns.len(),
    ensures
        selection(t, columns, KeysOf { side, output: true })->Ok_0.cols.len() == columns.len(),
        selection(t, columns, KeysOf { side, output: true })->Ok_0.cols[i] == as_key(
            t.cols[single_match(
                t.cols,
                columns[i],
                KeysOf { side, output: true },
                i as nat,
            )->Ok_0],
            true,
            i as nat,
        ),
{
    lemma_output_keys(t.cols, columns, side, columns.len());
}

/// The pairs that are shown to be distinct are made of the very columns that
/// the lookups use as source rows.
pub proof fn source_pairs_are_the_looked_up_rows(
    output: GroupedTableView,
    src_left: GroupedTableView,
    src_right: GroupedTableView,
)
    requires
        nodup_table(output, src_left, src_right) is Ok,
    ensures
        source_column(src_left, JoinLabel::SrcLeftTable) == Ok::<Poly, JoinError>(
            nodup_table(output, src_left, src_right)->Ok_0.cols[1].poly,
        ),
        source_column(src_right, JoinLabel::SrcRightTable) == Ok::<Poly, JoinError>(
            nodup_table(output, src_left, src_right)->Ok_0.cols[2].poly,
        ),
        grouped_activator(output) == Some(
            nodup_table(output, src_left, src_right)->Ok_0.cols[0].poly,
        ),
{
}

// ---------------------------------------------------------------------------
// Whose columns the count of matching pairs gets
// ---------------------------------------------------------------------------

/// Whether a reference names a field: its name, and its qualifier where the
/// reference has one.
pub open spec fn names_field(c: ColumnView, f: FieldView) -> bool {
    f.name == c.name && (qualifier_text(c) matches Some(q) ==> qualifier_of(f) == Some(q))
}

/// Whether a column has the polynomials of the flat columns from `k` on, all of
/// them between two places.
pub open spec fn carries(g: GroupedView, cols: Seq<ColView>, k: int, from: int, to: int) -> bool {
    &&& from <= k
    &&& k + g.row_aux.len() < to
    &&& g.primary.poly == cols[k].poly
    &&& forall|j: int|
        0 <= j < g.row_aux.len() ==> (#[trigger] g.row_aux[j]).bundle.poly == cols[k + 1 + j].poly
}

/// Whether two columns have the same segments.
pub open spec fn same_segments(g: GroupedView, h: GroupedView) -> bool {
    g.primary == h.primary && g.row_aux == h.row_aux && g.side_aux == h.side_aux
}

/// Whether the keys of a join are columns of the query, no system columns.
pub open spec fn joins_data_columns(join: JoinView) -> bool {
    forall|j: int|
        0 <= j < join.on.len() ==> ((#[trigger] join.on[j]).0 matches ExprView::Column(l)
            && join.on[j].1 matches ExprView::Column(r) && !is_system_name(l.name)
            && !is_system_name(r.name))
}

proof fn lemma_key_columns(on: Seq<(ExprView, ExprView)>, side: JoinSide, n: nat, i: int)
    requires
        key_columns(on, side, n) is Some,
        0 <= i < n,
    ensures
        key_columns(on, side, n)->0.len() == n,
        key_expr(on[i], side) == ExprView::Column(key_columns(on, side, n)->0[i]),
    decreases n,
{
    if i < n - 1 {
        lemma_key_columns(on, side, (n - 1) as nat, i);
    } else if n > 1 {
        lemma_key_columns(on, side, (n - 1) as nat, 0);
    }
}

proof fn lemma_single_match(cols: Seq<GroupedView>, c: ColumnView, keys: KeysOf, key: nat)
    requires
        single_match(cols, c, keys, key) is Ok,
    ensures
        0 <= single_match(cols, c, keys, key)->Ok_0 < cols.len(),
        names_field(c, cols[single_match(cols, c, keys, key)->Ok_0].field),
{
    let p = meant_by(c);
    lemma_indices_where(cols, p);
    assert(p(cols[indices_where(cols, p)[0]]));
}

proof fn lemma_key_names_differ(output: bool, i: nat, k: nat)
    requires
        key_name(output, i) == key_name(output, k),
    ensures
        i == k,
{
    let p = if output {
        OUTPUT_KEY_PREFIX@
    } else {
        INPUT_KEY_PREFIX@
    };
    assert(decimal(i) =~= (p + decimal(i)).skip(p.len() as int));
    assert(decimal(k) =~= (p + decimal(k)).skip(p.len() as int));
    lemma_decimal_injective(i, k);
}

proof fn lemma_key_names_are_no_system_names(output: bool, k: nat)
    ensures
        !is_system_name(key_name(output, k)),
{
    reveal_strlit("__mp_key_");
    reveal_strlit("__mp_output_key_");
    reveal_strlit("__activator__");
    reveal_strlit("__row_id__");
    assert(key_name(output, k)[2] == 'm');
    assert(ACTIVATOR_COL_NAME@[2] == 'a');
    assert(ROW_ID_COL_NAME@[2] == 'r');
}

proof fn lemma_keys_count(cols: Seq<GroupedView>, columns: Seq<ColumnView>, keys: KeysOf, n: nat)
    requires
        selected_keys(cols, columns, keys, n) is Ok,
        forall|j: int| 0 <= j < n ==> !is_system_name((#[trigger] columns[j]).name),
    ensures
        selected_keys(cols, columns, keys, n)->Ok_0.1 == n,
        selected_keys(cols, columns, keys, n)->Ok_0.0.len() == n,
        forall|j: int|
            0 <= j < n ==> (#[trigger] selected_keys(
                cols,
                columns,
                keys,
                n,
            )->Ok_0.0[j]).field.name == key_name(keys.output, j as nat),
    decreases n,
{
    if n > 0 {
        lemma_keys_count(cols, columns, keys, (n - 1) as nat);
        lemma_single_match(cols, columns[n - 1], keys, (n - 1) as nat);
        let before = selected_keys(cols, columns, keys, (n - 1) as nat)->Ok_0.0;
        let at = single_match(cols, columns[n - 1], keys, (n - 1) as nat)->Ok_0;
        let g = as_key(cols[at], keys.output, (n - 1) as nat);
        lemma_grouped_index(before, g.field);
        match grouped_index(before, g.field) {
            Some(i) => {
                lemma_key_names_differ(keys.output, i as nat, (n - 1) as nat);
            },
            None => {},
        }
        let now = selected_keys(cols, columns, keys, n)->Ok_0.0;
        assert(now == before.push(g));
        assert forall|j: int| 0 <= j < n implies (#[trigger] now[j]).field.name == key_name(
            keys.output,
            j as nat,
        ) by {
            if j < n - 1 {
                assert(now[j] == before[j]);
            }
        }
    }
}

proof fn lemma_keys_in_order(
    cols: Seq<GroupedView>,
    columns: Seq<ColumnView>,
    keys: KeysOf,
    n: nat,
    i: int,
)
    requires
        selected_keys(cols, columns, keys, n) is Ok,
        forall|j: int| 0 <= j < n ==> !is_system_name((#[trigger] columns[j]).name),
        0 <= i < n,
    ensures
        single_match(cols, columns[i], keys, i as nat) is Ok,
        selected_keys(cols, columns, keys, n)->Ok_0.0.len() == n,
        selected_keys(cols, columns, keys, n)->Ok_0.0[i] == as_key(
            cols[single_match(cols, columns[i], keys, i as nat)->Ok_0],
            keys.output,
            i as nat,
        ),
    decreases n,
{
    lemma_keys_count(cols, columns, keys, n);
    lemma_keys_count(cols, columns, keys, (n - 1) as nat);
    lemma_single_match(cols, columns[n - 1], keys, (n - 1) as nat);
    let before = selected_keys(cols, columns, keys, (n - 1) as nat)->Ok_0.0;
    let at = single_match(cols, columns[n - 1], keys, (n - 1) as nat)->Ok_0;
    let g = as_key(cols[at], keys.output, (n - 1) as nat);
    lemma_grouped_index(before, g.field);
    match grouped_index(before, g.field) {
        Some(k) => {
            assert(before[k].field.name == key_name(keys.output, k as nat));
            lemma_key_names_differ(keys.output, k as nat, (n - 1) as nat);
        },
        None => {},
    }
    if i < n - 1 {
        lemma_keys_in_order(cols, columns, keys, (n - 1) as nat, i);
    }
}

/// System columns behind the keys leave the keys in their places.
proof fn lemma_keys_stay(
    cols: Seq<GroupedView>,
    columns: Seq<ColumnView>,
    keys: KeysOf,
    n: nat,
    m: nat,
    i: int,
)
    requires
        !keys.output,
        n <= m,
        selected_keys(cols, columns, keys, m) is Ok,
        forall|j: int| 0 <= j < n ==> !is_system_name((#[trigger] columns[j]).name),
        forall|j: int| n <= j < m ==> is_system_name((#[trigger] columns[j]).name),
        0 <= i < n,
    ensures
        selected_keys(cols, columns, keys, n) is Ok,
        selected_keys(cols, columns, keys, m)->Ok_0.0.len() >= n,
        selected_keys(cols, columns, keys, m)->Ok_0.0[i] == selected_keys(
            cols,
            columns,
            keys,
            n,
        )->Ok_0.0[i],
    decreases m,
{
    if n < m {
        lemma_keys_stay(cols, columns, keys, n, (m - 1) as nat, i);
        lemma_keys_count(cols, columns, keys, n);
        lemma_single_match(cols, columns[m - 1], keys, (m - 1) as nat);
        let before = selected_keys(cols, columns, keys, (m - 1) as nat)->Ok_0.0;
        let at = single_match(cols, columns[m - 1], keys, (m - 1) as nat)->Ok_0;
        lemma_grouped_index(before, cols[at].field);
        lemma_key_names_are_no_system_names(false, i as nat);
        assert(before[i].field.name == key_name(false, i as nat));
    } else {
        lemma_keys_count(cols, columns, keys, n);
    }
}

/// Every selected column has the segments of a column of the table.
proof fn lemma_selected_from(
    cols: Seq<GroupedView>,
    columns: Seq<ColumnView>,
    keys: KeysOf,
    n: nat,
    i: int,
) -> (m: int)
    requires
        selected_keys(cols, columns, keys, n) is Ok,
        0 <= i < selected_keys(cols, columns, keys, n)->Ok_0.0.len(),
    ensures
        0 <= m < cols.len(),
        same_segments(selected_keys(cols, columns, keys, n)->Ok_0.0[i], cols[m]),
    decreases n,
{
    let (before, k) = selected_keys(cols, columns, keys, (n - 1) as nat)->Ok_0;
    let at = single_match(cols, columns[n - 1], keys, (n - 1) as nat)->Ok_0;
    lemma_single_match(cols, columns[n - 1], keys, (n - 1) as nat);
    let now = selected_keys(cols, columns, keys, n)->Ok_0.0;
    lemma_grouped_index(before, cols[at].field);
    lemma_grouped_index(before, as_key(cols[at], keys.output, k).field);
    if same_segments(now[i], cols[at]) {
        at
    } else {
        assert(now[i] == before[i]);
        lemma_selected_from(cols, columns, keys, (n - 1) as nat, i)
    }
}

/// What the keys of an input are, for one side of a join.
proof fn lemma_input_side(
    on: Seq<(ExprView, ExprView)>,
    input: GroupedTableView,
    side: JoinSide,
    i: int,
)
    requires
        key_columns(on, side, on.len()) is Some,
        input_keys(input, key_columns(on, side, on.len())->0, side) is Ok,
        forall|j: int|
            0 <= j < on.len() ==> (key_expr(#[trigger] on[j], side) matches ExprView::Column(c)
                && !is_system_name(c.name)),
        0 <= i < on.len(),
    ensures
        ({
            let t = input_keys(input, key_columns(on, side, on.len())->0, side)->Ok_0;
            &&& t.log_size == input.log_size
            &&& t.cols.len() > i
            &&& t.cols[i].field.name == "__mp_key_"@ + decimal(i as nat)
            &&& exists|m: int|
                0 <= m < input.cols.len() && same_segments(t.cols[i], #[trigger] input.cols[m])
                    && names_field(key_expr(on[i], side)->Column_0, input.cols[m].field)
            &&& forall|x: int|
                0 <= x < t.cols.len() ==> exists|m: int|
                    0 <= m < input.cols.len() && same_segments(
                        #[trigger] t.cols[x],
                        #[trigger] input.cols[m],
                    )
        }),
{
    let own = key_columns(on, side, on.len())->0;
    let n = on.len();
    let keys = KeysOf { side, output: false };
    let columns = ordered_columns(own, has_segment(input, ROW_ID_COL_NAME@));
    let t = input_keys(input, own, side)->Ok_0;
    assert forall|j: int| 0 <= j < n implies own.len() == n && !is_system_name(
        (#[trigger] own[j]).name,
    ) by {
        lemma_key_columns(on, side, n, j);
        assert(key_expr(on[j], side) == ExprView::Column(own[j]));
    }
    lemma_key_columns(on, side, n, i);
    assert forall|j: int| 0 <= j < n implies columns[j] == #[trigger] own[j] by {}
    assert forall|j: int| 0 <= j < n implies !is_system_name((#[trigger] columns[j]).name) by {
        assert(columns[j] == own[j]);
    }
    assert forall|j: int| n <= j < columns.len() implies is_system_name(
        (#[trigger] columns[j]).name,
    ) by {}
    lemma_keys_stay(input.cols, columns, keys, n, columns.len(), i);
    lemma_keys_in_order(input.cols, columns, keys, n, i);
    let at = single_match(input.cols, columns[i], keys, i as nat)->Ok_0;
    lemma_single_match(input.cols, columns[i], keys, i as nat);
    assert(columns[i] == own[i]);
    assert(same_segments(t.cols[i], input.cols[at]));
    assert forall|x: int| 0 <= x < t.cols.len() implies exists|m: int|
        0 <= m < input.cols.len() && same_segments(
            #[trigger] t.cols[x],
            #[trigger] input.cols[m],
        ) by {
        let m = lemma_selected_from(input.cols, columns, keys, columns.len(), x);
        assert(same_segments(t.cols[x], input.cols[m]));
    }
}

spec fn part_start(side: JoinSide, width: int) -> int {
    match side {
        JoinSide::Left => 0,
        JoinSide::Right => width,
    }
}

spec fn part_end(side: JoinSide, width: int, len: int) -> int {
    match side {
        JoinSide::Left => width,
        JoinSide::Right => len,
    }
}

/// What the keys of the output are, for one side of a join.
proof fn lemma_output_side(
    on: Seq<(ExprView, ExprView)>,
    output: GroupedTableView,
    left: GroupedTableView,
    right: GroupedTableView,
    side: JoinSide,
    i: int,
)
    requires
        key_columns(on, side, on.len()) is Some,
        output_keys(output, left, right, key_columns(on, side, on.len())->0, side) is Ok,
        forall|j: int|
            0 <= j < on.len() ==> (key_expr(#[trigger] on[j], side) matches ExprView::Column(c)
                && !is_system_name(c.name)),
        0 <= i < on.len(),
    ensures
        partitioned(output, left, right) is Ok,
        ({
            let t = output_keys(output, left, right, key_columns(on, side, on.len())->0, side)->Ok_0;
            let (out, width) = partitioned(output, left, right)->Ok_0;
            let from = part_start(side, width as int);
            let to = part_end(side, width as int, out.len() as int);
            &&& t.log_size == output.log_size
            &&& t.cols.len() == on.len()
            &&& t.cols[i].field.name == "__mp_output_key_"@ + decimal(i as nat)
            &&& exists|k: int| #[trigger]
                carries(t.cols[i], out, k, from, to) && names_field(
                    key_expr(on[i], side)->Column_0,
                    out[k].field,
                )
        }),
{
    let own = key_columns(on, side, on.len())->0;
    let n = on.len();
    let keys = KeysOf { side, output: true };
    let (out, width) = partitioned(output, left, right)->Ok_0;
    let a = grouped_activator(output)->0;
    let base = output_side(output, left, right, side)->Ok_0;
    let selected = match side {
        JoinSide::Left => out.take(width as int),
        JoinSide::Right => out.skip(width as int),
    };
    let from = part_start(side, width as int);
    assert forall|j: int| 0 <= j < selected.len() implies #[trigger] selected[j] == out[from
        + j] by {}
    lemma_output_data(output, left, right);
    assert forall|j: int| 0 <= j < selected.len() implies !is_system_name(
        (#[trigger] selected[j]).field.name,
    ) by {
        assert(selected[j] == out[from + j]);
        assert(!is_system_name(out[from + j].field.name));
    }
    lemma_side_cols(selected, a);
    let flat = base.cols;
    let c = ColView { field: activator_field_view(), poly: a };
    assert(flat == selected.push(c));
    assert forall|j: int| 0 <= j < n implies own.len() == n && !is_system_name(
        (#[trigger] own[j]).name,
    ) by {
        lemma_key_columns(on, side, n, j);
        assert(key_expr(on[j], side) == ExprView::Column(own[j]));
    }
    lemma_key_columns(on, side, n, i);
    let groups = regrouped(flat, flat.len());
    lemma_keys_in_order(groups, own, keys, n, i);
    let at = single_match(groups, own[i], keys, i as nat)->Ok_0;
    lemma_single_match(groups, own[i], keys, i as nat);
    let k = regrouped_columns_are_runs(flat, flat.len(), at);
    let g = groups[at];
    assert(flat[k].field.name == own[i].name);
    assert(k < selected.len());
    if k + g.row_aux.len() >= selected.len() {
        let j = g.row_aux.len() - 1;
        assert(k + 1 + j == selected.len());
        assert(g.row_aux[j].bundle.poly == flat[k + 1 + j].poly);
        assert(flat[k + 1 + j].field.name == g.field.name + g.row_aux[j].suffix);
        lemma_activator_is_no_segment(flat, flat.len(), at);
    }
    let t = output_keys(output, left, right, own, side)->Ok_0;
    let to = part_end(side, width as int, out.len() as int);
    assert(carries(t.cols[i], out, from + k, from, to)) by {
        assert forall|j: int| 0 <= j < t.cols[i].row_aux.len() implies (
        #[trigger] t.cols[i].row_aux[j]).bundle.poly == out[from + k + 1 + j].poly by {
            assert(t.cols[i].row_aux[j] == g.row_aux[j]);
            assert(flat[k + 1 + j] == selected[k + 1 + j]);
        }
        assert(flat[k] == selected[k]);
    }
    assert(flat[k] == selected[k]);
    assert(names_field(key_expr(on[i], side)->Column_0, out[from + k].field));
}

/// A column whose segments do not end before the activator has the activator as
/// its last segment, which no name allows.
proof fn lemma_activator_is_no_segment(cols: Seq<ColView>, n: nat, m: int)
    requires
        n <= cols.len(),
        n > 0,
        cols[n - 1].field.name == ACTIVATOR_COL_NAME@,
        0 <= m < regrouped(cols, n).len(),
    ensures
        m < regrouped(cols, n).len() - 1 || regrouped(cols, n)[m].row_aux.len() == 0,
        regrouped(cols, n).last().row_aux.len() == 0,
        regrouped(cols, n).last().field.name == ACTIVATOR_COL_NAME@,
{
    let before = regrouped(cols, (n - 1) as nat);
    reveal_strlit("__activator__");
    reveal_strlit("__length");
    if before.len() > 0 && auxiliary_of(ACTIVATOR_COL_NAME@, before.last().field.name) {
        let base = before.last().field.name;
        assert(ACTIVATOR_COL_NAME@ == base + STRING_LENGTH_SUFFIX@);
        assert((base + STRING_LENGTH_SUFFIX@).last() == 'h');
        assert(ACTIVATOR_COL_NAME@.last() == '_');
    }
}

/// The count of matching pairs gets its keys from where they belong. The left
/// keys of the output are columns of its left part, the right keys columns of
/// its right part, and the keys of an input columns of that input: for every
/// pair of the join, the column that the pair names on that side, with all the
/// polynomials of its segments.
pub proof fn keys_come_from_their_own_side(
    join: JoinView,
    output: GroupedTableView,
    left: GroupedTableView,
    right: GroupedTableView,
    i: int,
)
    requires
        match_pair(join, output, left, right) is Ok,
        joins_data_columns(join),
        0 <= i < join.on.len(),
    ensures
        data_cols(output, JoinLabel::Output) is Ok,
        data_cols(left, JoinLabel::LeftInput) is Ok,
        ({
            let t = match_pair(join, output, left, right)->Ok_0;
            let out = data_cols(output, JoinLabel::Output)->Ok_0;
            let width = data_cols(left, JoinLabel::LeftInput)->Ok_0.len() as int;
            let l = join.on[i].0->Column_0;
            let r = join.on[i].1->Column_0;
            &&& t.output_left_keys.cols.len() == join.on.len()
            &&& t.output_right_keys.cols.len() == join.on.len()
            &&& exists|k: int| #[trigger]
                carries(t.output_left_keys.cols[i], out, k, 0, width) && names_field(
                    l,
                    out[k].field,
                )
            &&& exists|k: int| #[trigger]
                carries(t.output_right_keys.cols[i], out, k, width, out.len() as int)
                    && names_field(r, out[k].field)
            &&& exists|m: int|
                0 <= m < left.cols.len() && same_segments(
                    t.input_left.cols[i],
                    #[trigger] left.cols[m],
                ) && names_field(l, left.cols[m].field)
            &&& exists|m: int|
                0 <= m < right.cols.len() && same_segments(
                    t.input_right.cols[i],
                    #[trigger] right.cols[m],
                ) && names_field(r, right.cols[m].field)
            &&& t.output_left_keys.log_size == output.log_size
            &&& t.output_right_keys.log_size == output.log_size
            &&& t.input_left.log_size == left.log_size
            &&& t.input_right.log_size == right.log_size
        }),
{
    let on = join.on;
    assert forall|j: int| 0 <= j < on.len() implies (key_expr(
        #[trigger] on[j],
        JoinSide::Left,
    ) matches ExprView::Column(c) && !is_system_name(c.name)) && (key_expr(
        on[j],
        JoinSide::Right,
    ) matches ExprView::Column(c) && !is_system_name(c.name)) by {}
    lemma_input_side(on, left, JoinSide::Left, i);
    lemma_input_side(on, right, JoinSide::Right, i);
    lemma_output_side(on, output, left, right, JoinSide::Left, i);
    lemma_output_side(on, output, left, right, JoinSide::Right, i);
}

/// The keys of every pair stand under the same position in all four tables, and
/// everything that is handed over as an input is a column of that input.
pub proof fn keys_stand_under_their_position(
    join: JoinView,
    output: GroupedTableView,
    left: GroupedTableView,
    right: GroupedTableView,
    i: int,
)
    requires
        match_pair(join, output, left, right) is Ok,
        joins_data_columns(join),
        0 <= i < join.on.len(),
    ensures
        ({
            let t = match_pair(join, output, left, right)->Ok_0;
            &&& t.input_left.cols[i].field.name == "__mp_key_"@ + decimal(i as nat)
            &&& t.input_right.cols[i].field.name == "__mp_key_"@ + decimal(i as nat)
            &&& t.output_left_keys.cols[i].field.name == "__mp_output_key_"@ + decimal(i as nat)
            &&& t.output_right_keys.cols[i].field.name == "__mp_output_key_"@ + decimal(i as nat)
            &&& forall|x: int|
                0 <= x < t.input_left.cols.len() ==> exists|m: int|
                    0 <= m < left.cols.len() && same_segments(
                        #[trigger] t.input_left.cols[x],
                        #[trigger] left.cols[m],
                    )
            &&& forall|x: int|
                0 <= x < t.input_right.cols.len() ==> exists|m: int|
                    0 <= m < right.cols.len() && same_segments(
                        #[trigger] t.input_right.cols[x],
                        #[trigger] right.cols[m],
                    )
        }),
{
    let on = join.on;
    assert forall|j: int| 0 <= j < on.len() implies (key_expr(
        #[trigger] on[j],
        JoinSide::Left,
    ) matches ExprView::Column(c) && !is_system_name(c.name)) && (key_expr(
        on[j],
        JoinSide::Right,
    ) matches ExprView::Column(c) && !is_system_name(c.name)) by {}
    lemma_input_side(on, left, JoinSide::Left, i);
    lemma_input_side(on, right, JoinSide::Right, i);
    lemma_output_side(on, output, left, right, JoinSide::Left, i);
    lemma_output_side(on, output, left, right, JoinSide::Right, i);
}

/// The pairs of source rows stand under the names of their sides, beside the
/// output's activator; and the column that is shown to be of truth values is
/// that activator alone.
pub proof fn wired_columns_have_their_names(
    output: GroupedTableView,
    src_left: GroupedTableView,
    src_right: GroupedTableView,
)
    requires
        nodup_table(output, src_left, src_right) is Ok,
    ensures
        bool_table(output) is Ok,
        ({
            let t = nodup_table(output, src_left, src_right)->Ok_0;
            let b = bool_table(output)->Ok_0;
            &&& t.cols.len() == 3
            &&& t.log_size == output.log_size
            &&& t.cols[0].field.name == "__activator__"@
            &&& grouped_activator(output) == Some(t.cols[0].poly)
            &&& t.cols[1].field.name == "src_left"@
            &&& source_column(src_left, JoinLabel::SrcLeft) == Ok::<Poly, JoinError>(t.cols[1].poly)
            &&& t.cols[2].field.name == "src_right"@
            &&& source_column(src_right, JoinLabel::SrcRight) == Ok::<Poly, JoinError>(
                t.cols[2].poly,
            )
            &&& b.cols.len() == 1
            &&& b.cols[0].field.data_type == TypeView::Boolean
            &&& grouped_activator(output) == Some(b.cols[0].poly)
            &&& b.log_size == output.log_size
        }),
{
}

/// The activator that goes with the keys of the output is the output's own, and
/// the wiring of a join is made of its three parts over the same tables.
pub proof fn the_wiring_is_over_one_output(
    join: JoinView,
    output: GroupedTableView,
    left: GroupedTableView,
    right: GroupedTableView,
    src_left: GroupedTableView,
    src_right: GroupedTableView,
)
    requires
        join_wiring(join, output, left, right, src_left, src_right) is Ok,
    ensures
        ({
            let w = join_wiring(join, output, left, right, src_left, src_right)->Ok_0;
            let a = grouped_activator(output);
            &&& unsupported(join) is None
            &&& w.activator.cols.len() == 1 && a == Some(w.activator.cols[0].poly)
            &&& a == Some(w.source_pairs.cols[0].poly)
            &&& w.match_pair.output_activator.cols.len() == 1
            &&& a == Some(w.match_pair.output_activator.cols[0].poly)
            &&& w.match_pair.output_activator.cols[0].field.name == "__activator__"@
            &&& w.match_pair.output_activator.log_size == output.log_size
            &&& source_column(src_left, JoinLabel::SrcLeft) == Ok::<Poly, JoinError>(
                w.source_pairs.cols[1].poly,
            )
            &&& source_column(src_right, JoinLabel::SrcRight) == Ok::<Poly, JoinError>(
                w.source_pairs.cols[2].poly,
            )
            &&& match_pair(join, output, left, right) == Ok::<MatchPairView, JoinError>(
                w.match_pair,
            )
        }),
{
    let cols = flat_cols(table_segments(output));
    lemma_name_index(cols, ACTIVATOR_COL_NAME@);
}

/// A key is taken only where one column alone is meant by it, and it is taken
/// wherever that is so.
pub proof fn keys_are_taken_where_they_are_meant_alone(
    cols: Seq<GroupedView>,
    c: ColumnView,
    keys: KeysOf,
    key: nat,
    i: int,
)
    ensures
        single_match(cols, c, keys, key) == Ok::<int, JoinError>(i) <==> 0 <= i < cols.len()
            && names_field(c, cols[i].field) && forall|j: int|
            0 <= j < cols.len() && j != i ==> !names_field(c, (#[trigger] cols[j]).field),
        single_match(cols, c, keys, key) matches Err(JoinError::MissingKey { .. }) ==> forall|
            j: int,
        |
            0 <= j < cols.len() ==> !names_field(c, (#[trigger] cols[j]).field),
{
    let p = meant_by(c);
    let found = indices_where(cols, p);
    lemma_indices_where(cols, p);
    if found.len() == 0 {
        assert forall|j: int| 0 <= j < cols.len() implies !names_field(
            c,
            (#[trigger] cols[j]).field,
        ) by {
            if p(cols[j]) {
                lemma_index_found(cols, p, j);
            }
        }
    }
    if found.len() == 1 {
        assert(p(cols[found[0]]));
        assert forall|j: int| 0 <= j < cols.len() && j != found[0] implies !names_field(
            c,
            (#[trigger] cols[j]).field,
        ) by {
            if p(cols[j]) {
                lemma_index_found(cols, p, j);
            }
        }
    }
    if found.len() > 1 {
        positions_increase(cols, p, 0, 1);
        assert(p(cols[found[0]]) && p(cols[found[1]]));
        assert(names_field(c, cols[found[0]].field));
        assert(names_field(c, cols[found[1]].field));
    }
}

/// The keys of an input come first, in order. The row number is asked for
/// exactly where the input has one, and the activator always.
pub proof fn inputs_are_asked_for_keys_and_system_columns(keys: Seq<ColumnView>, row_id: bool)
    ensures
        keys.len() <= ordered_columns(keys, row_id).len() <= keys.len() + 2,
        ordered_columns(keys, row_id).take(keys.len() as int) == keys,
        exists|i: int|
            0 <= i < ordered_columns(keys, row_id).len() && (#[trigger] ordered_columns(
                keys,
                row_id,
            )[i]).name == "__activator__"@,
        row_id ==> exists|i: int|
            0 <= i < ordered_columns(keys, row_id).len() && (#[trigger] ordered_columns(
                keys,
                row_id,
            )[i]).name == "__row_id__"@,
        forall|i: int|
            keys.len() <= i < ordered_columns(keys, row_id).len() ==> {
                let c = #[trigger] ordered_columns(keys, row_id)[i];
                c.relation is None && (c.name == "__activator__"@ || (row_id && c.name
                    == "__row_id__"@))
            },
{
    let first = if row_id {
        with_column(keys, ROW_ID_COL_NAME@)
    } else {
        keys
    };
    let all = ordered_columns(keys, row_id);
    assert(all.take(keys.len() as int) =~= keys);
    if row_id {
        if first == keys {
            let i = choose|i: int|
                0 <= i < keys.len() && (#[trigger] keys[i]).name == ROW_ID_COL_NAME@;
            assert(all[i].name == "__row_id__"@);
        } else {
            assert(all[keys.len() as int].name == "__row_id__"@);
        }
    }
    if all == first {
        let i = choose|i: int|
            0 <= i < first.len() && (#[trigger] first[i]).name == ACTIVATOR_COL_NAME@;
        assert(all[i].name == "__activator__"@);
    } else {
        assert(all[first.len() as int].name == "__activator__"@);
    }
}

/// The pairs of source rows are over the rows of the output: both tables of
/// source rows have as many rows as it, and the three columns are of one
/// tracker.
pub proof fn source_pairs_are_over_the_output(
    output: GroupedTableView,
    src_left: GroupedTableView,
    src_right: GroupedTableView,
    t: TableView,
)
    requires
        nodup_table(output, src_left, src_right) == Ok::<TableView, JoinError>(t),
    ensures
        src_left.log_size == output.log_size,
        src_right.log_size == output.log_size,
        t.log_size == output.log_size,
        t.cols.len() == 3,
        t.cols[1].poly.tracker == t.cols[0].poly.tracker,
        t.cols[2].poly.tracker == t.cols[0].poly.tracker,
        grouped_activator(output) == Some(t.cols[0].poly),
        source_column(src_left, JoinLabel::SrcLeft) == Ok::<Poly, JoinError>(t.cols[1].poly),
        source_column(src_right, JoinLabel::SrcRight) == Ok::<Poly, JoinError>(t.cols[2].poly),
        t.cols[1].field.name == "src_left"@,
        t.cols[2].field.name == "src_right"@,
{
}

/// A missing activator is reported of the side that has none.
pub proof fn missing_activators_are_reported_of_their_side(
    output: GroupedTableView,
    left: GroupedTableView,
    right: GroupedTableView,
    side: JoinSide,
)
    requires
        match_pair_fault(output, left, right) == Some(JoinError::MissingSideActivator(side)),
    ensures
        forall|i: int|
            0 <= i < flat_cols(table_segments(side_of(left, right, side))).len() ==> (
            #[trigger] flat_cols(table_segments(side_of(left, right, side)))[i]).field.name
                != "__activator__"@,
{
    lemma_name_index(flat_cols(table_segments(left)), ACTIVATOR_COL_NAME@);
    lemma_name_index(flat_cols(table_segments(right)), ACTIVATOR_COL_NAME@);
}

/// The keys of an input keep the annotations of its schema. Those of the
/// output have none. Both are over the rows of the table that they are taken
/// from.
pub proof fn selected_keys_are_over_the_same_rows(
    t: GroupedTableView,
    columns: Seq<ColumnView>,
    keys: KeysOf,
    r: GroupedTableView,
)
    requires
        selection(t, columns, keys) == Ok::<GroupedTableView, JoinError>(r),
    ensures
        r.log_size == t.log_size,
        r.schema is Some,
        !keys.output ==> (t.schema matches Some(s) ==> r.schema->0.metadata == s.metadata),
        keys.output ==> r.schema->0.metadata == Map::<Seq<char>, Seq<char>>::empty(),
{
}

} // verus!
