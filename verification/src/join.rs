//! The lookups of a join: every output row is shown to be made of a row of
//! each input, by its columns and by the row it comes from.
use crate::aggregate::{data_indices, is_data};
use crate::constraints::{FK_REF_COLUMNS_METADATA_KEY, FK_REF_TABLE_METADATA_KEY, PK_METADATA_KEY};
use crate::grouped::{
    flat_cols, flat_table, one_row_domain, table_segments, GroupedTable, GroupedTableView,
};
use crate::indexed::{has_member, members, new_members, put_member};
use crate::join_scope::{
    ensure_supported_join, unsupported, Join, JoinSide, JoinUnsupported, JoinView,
    SRC_LEFT_COL_NAME, SRC_RIGHT_COL_NAME,
};
use crate::metadata::Metadata;
use crate::plan::{Schema, SchemaView};
use crate::plan_copy::copy_bytes;
use crate::schema::{
    copy_fields, fields_view, plain_field, same_text_opt, DataType, Field, FieldView, TypeView,
};
use crate::seqs::{
    first_index, indices_where, ints, kept, lemma_first_index, lemma_index_found,
    lemma_indices_where, lemma_is_first, lemma_kept_step, lemma_no_first,
};
use crate::table::{
    activator_field, activator_field_view, col_fields, cols_insert, cols_view, copy_cols,
    field_index, field_qualifier, fields_of, find_name, insert_col, is_system_column,
    is_system_name, lemma_field_index, lemma_name_index, name_index, plain_schema, qualifier_of,
    table_of, table_with, ColView, Party, Poly, SideView, Table, TableView, TrackedColumn,
    ACTIVATOR_COL_NAME, ROW_ID_COL_NAME,
};
use crate::text::same_text;
use indexmap::IndexSet;
use vstd::prelude::*;
use vstd::string::*;

verus! {

/// A table that an error is about.
#[derive(Debug, Clone, Copy, PartialEq, Eq, Structural)]
pub enum JoinLabel {
    Output,
    LeftInput,
    RightInput,
    JoinLeftInput,
    JoinRightInput,
    SrcLeft,
    SrcRight,
    SrcLeftTable,
    SrcRightTable,
    Input,
    Lookup,
}

/// A join that cannot be wired.
#[derive(Debug, Clone, Copy, PartialEq, Eq, Structural)]
pub enum JoinError {
    /// A segment of the table does not lie over the table's rows.
    RowDomain(JoinLabel),
    /// Two segments of the table have one field.
    FlatWidth { label: JoinLabel, declared: u128, actual: usize },
    /// The schema does not list as many fields as there are segments.
    SchemaWidth { label: JoinLabel, schema: usize, actual: usize },
    /// The schema lists another field than that of the segment.
    FieldOrder { label: JoinLabel, index: usize },
    /// A table cannot be folded with this many challenges.
    FoldWidth { fields: usize, challenges: usize },
    NoColumns,
    Trackers,
    LogSize { actual: usize, expected: usize },
    Collision,
    Width,
    /// The table of source rows has not exactly one data column.
    SourceColumns(JoinLabel),
    OutputWidth { actual: usize, expected: u128 },
    OutputField { index: usize },
    /// A column of the one input passes for a column of the other.
    NotDisjoint,
    MissingActivator,
    /// The source rows and the output are not over the same rows.
    SourceDomain,
    SourceTrackers,
    MissingSideActivator(JoinSide),
    KeyNotColumn,
    MissingKey { side: JoinSide, output: bool, key: usize },
    AmbiguousKey { side: JoinSide, output: bool, key: usize, candidates: usize },
}

// ---------------------------------------------------------------------------
// The data of a table
// ---------------------------------------------------------------------------

/// Position of the first of the first `n` fields where the lists differ.
pub open spec fn first_mismatch(a: Seq<FieldView>, b: Seq<FieldView>, n: nat) -> Option<int>
    decreases n,
{
    if n == 0 {
        None
    } else {
        match first_mismatch(a, b, (n - 1) as nat) {
            Some(i) => Some(i),
            None => if a[n - 1] != b[n - 1] {
                Some(n - 1)
            } else {
                None
            },
        }
    }
}

/// What is wrong with the order of a table's segments: two with one field, or
/// a schema that does not list exactly their fields.
pub open spec fn flat_order_fault(t: GroupedTableView, label: JoinLabel) -> Option<JoinError> {
    let segments = table_segments(t);
    let flat = flat_cols(segments);
    if flat.len() != segments.len() {
        Some(
            JoinError::FlatWidth {
                label,
                declared: segments.len() as u128,
                actual: flat.len() as usize,
            },
        )
    } else {
        match t.schema {
            Some(s) => if s.fields.len() != flat.len() {
                Some(
                    JoinError::SchemaWidth {
                        label,
                        schema: s.fields.len() as usize,
                        actual: flat.len() as usize,
                    },
                )
            } else {
                match first_mismatch(s.fields, col_fields(flat), flat.len()) {
                    Some(i) => Some(JoinError::FieldOrder { label, index: i as usize }),
                    None => None,
                }
            },
            None => None,
        }
    }
}

/// A data column, where it is one.
pub open spec fn data_col() -> spec_fn(ColView) -> Option<ColView> {
    |c: ColView|
        if is_system_name(c.field.name) {
            None
        } else {
            Some(c)
        }
}

/// The data columns of a well-formed table.
pub open spec fn data_cols(t: GroupedTableView, label: JoinLabel) -> Result<
    Seq<ColView>,
    JoinError,
> {
    if !one_row_domain(t) {
        Err(JoinError::RowDomain(label))
    } else {
        match flat_order_fault(t, label) {
            Some(e) => Err(e),
            None => Ok(kept(flat_cols(table_segments(t)), data_col())),
        }
    }
}

fn find_mismatch(a: &Vec<Field>, cols: &Vec<TrackedColumn>) -> (r: Option<usize>)
    requires
        a@.len() == cols@.len(),
    ensures
        match r {
            Some(i) => first_mismatch(
                fields_view(a@),
                col_fields(cols_view(cols@)),
                cols@.len(),
            ) == Some(i as int),
            None => first_mismatch(
                fields_view(a@),
                col_fields(cols_view(cols@)),
                cols@.len(),
            ) is None,
        },
{
    let ghost x = fields_view(a@);
    let ghost y = col_fields(cols_view(cols@));
    let mut i: usize = 0;
    while i < cols.len()
        invariant
            i <= cols@.len(),
            a@.len() == cols@.len(),
            x == fields_view(a@),
            y == col_fields(cols_view(cols@)),
            first_mismatch(x, y, i as nat) is None,
        decreases cols@.len() - i,
    {
        assert(x[i as int] == a@[i as int]@);
        assert(y[i as int] == cols@[i as int].field@);
        if !a[i].same(&cols[i].field) {
            proof {
                lemma_mismatch_stays(x, y, (i + 1) as nat, cols@.len());
            }
            return Some(i);
        }
        i = i + 1;
    }
    None
}

proof fn lemma_mismatch_stays(a: Seq<FieldView>, b: Seq<FieldView>, n: nat, m: nat)
    requires
        n <= m,
        first_mismatch(a, b, n) is Some,
    ensures
        first_mismatch(a, b, m) == first_mismatch(a, b, n),
    decreases m,
{
    if n < m {
        lemma_mismatch_stays(a, b, n, (m - 1) as nat);
    }
}

/// The flat columns of a table, after the checks on its rows and the order of
/// its segments.
fn checked_flat(table: &GroupedTable, label: JoinLabel) -> (r: Result<
    Vec<TrackedColumn>,
    JoinError,
>)
    ensures
        match r {
            Ok(cols) => one_row_domain(table@) && flat_order_fault(table@, label) is None
                && cols_view(cols@) == flat_cols(table_segments(table@)),
            Err(e) => data_cols(table@, label) == Err::<Seq<ColView>, JoinError>(e),
        },
{
    if !table.has_one_row_domain() {
        return Err(JoinError::RowDomain(label));
    }
    let (cols, declared): (Vec<TrackedColumn>, u128) = table.flatten();
    assert(cols_view(cols@).len() == cols@.len());
    if cols.len() as u128 != declared {
        return Err(JoinError::FlatWidth { label, declared, actual: cols.len() });
    }
    match &table.schema {
        Some(s) => {
            assert(s@.fields.len() == s.fields@.len());
            if s.fields.len() != cols.len() {
                return Err(
                    JoinError::SchemaWidth { label, schema: s.fields.len(), actual: cols.len() },
                );
            }
            match find_mismatch(&s.fields, &cols) {
                Some(index) => return Err(JoinError::FieldOrder { label, index }),
                None => {},
            }
        },
        None => {},
    }
    Ok(cols)
}

/// The data columns of a well-formed table.
pub fn validated_data(table: &GroupedTable, label: JoinLabel) -> (r: Result<
    Vec<TrackedColumn>,
    JoinError,
>)
    ensures
        match r {
            Ok(cols) => data_cols(table@, label) == Ok::<Seq<ColView>, JoinError>(
                cols_view(cols@),
            ),
            Err(e) => data_cols(table@, label) == Err::<Seq<ColView>, JoinError>(e),
        },
{
    let flat: Vec<TrackedColumn> = match checked_flat(table, label) {
        Ok(c) => c,
        Err(e) => return Err(e),
    };
    let ghost views = cols_view(flat@);
    let ghost f = data_col();
    let mut out: Vec<TrackedColumn> = Vec::new();
    let mut i: usize = 0;
    assert(cols_view(out@) =~= kept(views.take(0), f));
    while i < flat.len()
        invariant
            i <= flat@.len(),
            views == cols_view(flat@),
            f == data_col(),
            cols_view(out@) == kept(views.take(i as int), f),
        decreases flat@.len() - i,
    {
        proof {
            lemma_kept_step(views, f, i as int);
            assert(views[i as int] == flat@[i as int]@);
        }
        if !is_system_column(flat[i].field.name.as_str()) {
            let ghost before = cols_view(out@);
            let c: TrackedColumn = flat[i].copy();
            out.push(c);
            assert(cols_view(out@) =~= before.push(c@));
        }
        i = i + 1;
    }
    assert(views.take(views.len() as int) =~= views);
    Ok(out)
}

// ---------------------------------------------------------------------------
// The output's part of an input
// ---------------------------------------------------------------------------

/// Where a column comes from: its qualifier and its name.
pub open spec fn provenance(f: FieldView) -> (Option<Seq<char>>, Seq<char>) {
    (qualifier_of(f), f.name)
}

/// Annotations without those of key constraints, which joins drop.
pub open spec fn without_constraints(m: Map<Seq<char>, Seq<char>>) -> Map<Seq<char>, Seq<char>> {
    m.remove(PK_METADATA_KEY@).remove(FK_REF_TABLE_METADATA_KEY@).remove(
        FK_REF_COLUMNS_METADATA_KEY@,
    )
}

/// Whether an output column may stand for an input column: the same but for
/// the annotations of key constraints.
pub open spec fn compatible(actual: FieldView, expected: FieldView) -> bool {
    &&& provenance(actual) == provenance(expected)
    &&& actual.data_type == expected.data_type
    &&& actual.nullable == expected.nullable
    &&& without_constraints(actual.metadata) == without_constraints(expected.metadata)
}

fn same_provenance(a: &Field, b: &Field) -> (r: bool)
    ensures
        r == (provenance(a@) == provenance(b@)),
{
    same_text(a.name.as_str(), b.name.as_str()) && same_text_opt(
        &field_qualifier(a),
        &field_qualifier(b),
    )
}

fn bare_metadata(field: &Field) -> (r: Metadata)
    ensures
        r@ == without_constraints(field@.metadata),
{
    field.metadata.copy().without(PK_METADATA_KEY).without(FK_REF_TABLE_METADATA_KEY).without(
        FK_REF_COLUMNS_METADATA_KEY,
    )
}

/// Whether an output column may stand for an input column.
pub fn fields_are_positionally_compatible(actual: &Field, expected: &Field) -> (r: bool)
    ensures
        r == compatible(actual@, expected@),
{
    same_provenance(actual, expected) && actual.data_type.same(&expected.data_type)
        && actual.nullable == expected.nullable && bare_metadata(actual).same(
        &bare_metadata(expected),
    )
}

/// Position of the first of the first `n` output columns that cannot stand
/// for the input column at its place.
pub open spec fn first_incompatible(out: Seq<ColView>, expected: Seq<ColView>, n: nat) -> Option<
    int,
>
    decreases n,
{
    if n == 0 {
        None
    } else {
        match first_incompatible(out, expected, (n - 1) as nat) {
            Some(i) => Some(i),
            None => if compatible(out[n - 1].field, expected[n - 1].field) {
                None
            } else {
                Some(n - 1)
            },
        }
    }
}

/// Whether a column of the one list passes for a column of the other.
pub open spec fn share_provenance(a: Seq<ColView>, b: Seq<ColView>) -> bool {
    exists|i: int, j: int|
        0 <= i < a.len() && 0 <= j < b.len() && provenance((#[trigger] a[i]).field) == provenance(
            (#[trigger] b[j]).field,
        )
}

/// The polynomial of the activator of a table with segments.
pub open spec fn grouped_activator(t: GroupedTableView) -> Option<Poly> {
    match name_index(flat_cols(table_segments(t)), ACTIVATOR_COL_NAME@) {
        Some(i) => Some(flat_cols(table_segments(t))[i].poly),
        None => None,
    }
}

/// The data columns of the output, where they are in place the data columns
/// of the left input and then those of the right, and no column of the one
/// passes for a column of the other; and the number of the left ones.
pub open spec fn partitioned(
    output: GroupedTableView,
    left: GroupedTableView,
    right: GroupedTableView,
) -> Result<(Seq<ColView>, nat), JoinError> {
    match data_cols(left, JoinLabel::LeftInput) {
        Err(e) => Err(e),
        Ok(l) => match data_cols(right, JoinLabel::RightInput) {
            Err(e) => Err(e),
            Ok(r) => match data_cols(output, JoinLabel::Output) {
                Err(e) => Err(e),
                Ok(out) => if out.len() != l.len() + r.len() {
                    Err(
                        JoinError::OutputWidth {
                            actual: out.len() as usize,
                            expected: (l.len() + r.len()) as u128,
                        },
                    )
                } else {
                    match first_incompatible(out, l + r, out.len()) {
                        Some(i) => Err(JoinError::OutputField { index: i as usize }),
                        None => if share_provenance(l, r) {
                            Err(JoinError::NotDisjoint)
                        } else {
                            Ok((out, l.len()))
                        },
                    }
                },
            },
        },
    }
}

/// The part of the output that comes from one input: its data columns and
/// the output's activator.
pub open spec fn output_side(
    output: GroupedTableView,
    left: GroupedTableView,
    right: GroupedTableView,
    side: JoinSide,
) -> Result<TableView, JoinError> {
    match partitioned(output, left, right) {
        Err(e) => Err(e),
        Ok((out, width)) => match grouped_activator(output) {
            None => Err(JoinError::MissingActivator),
            Some(a) => {
                let selected = match side {
                    JoinSide::Left => out.take(width as int),
                    JoinSide::Right => out.skip(width as int),
                };
                Ok(
                    table_of(
                        cols_insert(selected, activator_field_view(), a),
                        output.log_size,
                    ),
                )
            },
        },
    }
}

fn find_incompatible(
    out: &Vec<TrackedColumn>,
    left: &Vec<TrackedColumn>,
    right: &Vec<TrackedColumn>,
) -> (r: Option<usize>)
    requires
        out@.len() == left@.len() + right@.len(),
    ensures
        match r {
            Some(i) => first_incompatible(
                cols_view(out@),
                cols_view(left@) + cols_view(right@),
                out@.len(),
            ) == Some(i as int),
            None => first_incompatible(
                cols_view(out@),
                cols_view(left@) + cols_view(right@),
                out@.len(),
            ) is None,
        },
{
    let ghost x = cols_view(out@);
    let ghost y = cols_view(left@) + cols_view(right@);
    let mut i: usize = 0;
    while i < out.len()
        invariant
            i <= out@.len(),
            out@.len() == left@.len() + right@.len(),
            x == cols_view(out@),
            y == cols_view(left@) + cols_view(right@),
            first_incompatible(x, y, i as nat) is None,
        decreases out@.len() - i,
    {
        let expected: &TrackedColumn = if i < left.len() {
            &left[i]
        } else {
            &right[i - left.len()]
        };
        assert(x[i as int] == out@[i as int]@);
        assert(y[i as int] == expected@);
        if !fields_are_positionally_compatible(&out[i].field, &expected.field) {
            proof {
                lemma_incompatible_stays(x, y, (i + 1) as nat, out@.len());
            }
            return Some(i);
        }
        i = i + 1;
    }
    None
}

proof fn lemma_incompatible_stays(a: Seq<ColView>, b: Seq<ColView>, n: nat, m: nat)
    requires
        n <= m,
        first_incompatible(a, b, n) is Some,
    ensures
        first_incompatible(a, b, m) == first_incompatible(a, b, n),
    decreases m,
{
    if n < m {
        lemma_incompatible_stays(a, b, n, (m - 1) as nat);
    }
}

fn do_share_provenance(a: &Vec<TrackedColumn>, b: &Vec<TrackedColumn>) -> (r: bool)
    ensures
        r == share_provenance(cols_view(a@), cols_view(b@)),
{
    let ghost x = cols_view(a@);
    let ghost y = cols_view(b@);
    let mut i: usize = 0;
    while i < a.len()
        invariant
            i <= a@.len(),
            x == cols_view(a@),
            y == cols_view(b@),
            forall|k: int, j: int|
                0 <= k < i && 0 <= j < y.len() ==> provenance((#[trigger] x[k]).field)
                    != provenance((#[trigger] y[j]).field),
        decreases a@.len() - i,
    {
        assert(x[i as int] == a@[i as int]@);
        let mut j: usize = 0;
        while j < b.len()
            invariant
                i < a@.len(),
                j <= b@.len(),
                x == cols_view(a@),
                y == cols_view(b@),
                x[i as int] == a@[i as int]@,
                forall|k: int|
                    0 <= k < j ==> provenance(x[i as int].field) != provenance(
                        (#[trigger] y[k]).field,
                    ),
            decreases b@.len() - j,
        {
            assert(y[j as int] == b@[j as int]@);
            if same_provenance(&a[i].field, &b[j].field) {
                assert(provenance(x[i as int].field) == provenance(y[j as int].field));
                return true;
            }
            j = j + 1;
        }
        i = i + 1;
    }
    false
}

fn activator_of(table: &GroupedTable) -> (r: Option<Poly>)
    ensures
        r == grouped_activator(table@),
{
    let (cols, _): (Vec<TrackedColumn>, u128) = table.flatten();
    match find_name(&cols, ACTIVATOR_COL_NAME) {
        Some(i) => {
            assert(cols_view(cols@)[i as int] == cols@[i as int]@);
            Some(cols[i].poly)
        },
        None => None,
    }
}

fn check_partition(output: &GroupedTable, left: &GroupedTable, right: &GroupedTable) -> (r: Result<
    (Vec<TrackedColumn>, usize),
    JoinError,
>)
    ensures
        match r {
            Ok((out, width)) => partitioned(output@, left@, right@) == Ok::<
                (Seq<ColView>, nat),
                JoinError,
            >((cols_view(out@), width as nat)) && width <= out@.len(),
            Err(e) => partitioned(output@, left@, right@) == Err::<(Seq<ColView>, nat), JoinError>(
                e,
            ),
        },
{
    let l: Vec<TrackedColumn> = match validated_data(left, JoinLabel::LeftInput) {
        Ok(c) => c,
        Err(e) => return Err(e),
    };
    let r: Vec<TrackedColumn> = match validated_data(right, JoinLabel::RightInput) {
        Ok(c) => c,
        Err(e) => return Err(e),
    };
    let out: Vec<TrackedColumn> = match validated_data(output, JoinLabel::Output) {
        Ok(c) => c,
        Err(e) => return Err(e),
    };
    assert(cols_view(l@).len() == l@.len());
    assert(cols_view(r@).len() == r@.len());
    assert(cols_view(out@).len() == out@.len());
    let expected: u128 = l.len() as u128 + r.len() as u128;
    if out.len() as u128 != expected {
        return Err(JoinError::OutputWidth { actual: out.len(), expected });
    }
    match find_incompatible(&out, &l, &r) {
        Some(index) => return Err(JoinError::OutputField { index }),
        None => {},
    }
    if do_share_provenance(&l, &r) {
        return Err(JoinError::NotDisjoint);
    }
    Ok((out, l.len()))
}

fn copy_range(cols: &Vec<TrackedColumn>, from: usize, to: usize) -> (r: Vec<TrackedColumn>)
    requires
        from <= to <= cols@.len(),
    ensures
        cols_view(r@) == cols_view(cols@).subrange(from as int, to as int),
{
    let mut out: Vec<TrackedColumn> = Vec::new();
    let mut i: usize = from;
    while i < to
        invariant
            from <= i <= to <= cols@.len(),
            out@.len() == i - from,
            forall|j: int| 0 <= j < i - from ==> (#[trigger] out@[j])@ == cols@[from + j]@,
        decreases to - i,
    {
        out.push(cols[i].copy());
        i = i + 1;
    }
    assert(cols_view(out@) =~= cols_view(cols@).subrange(from as int, to as int));
    out
}

/// The part of the output that comes from one input.
pub fn output_lookup_base(
    output: &GroupedTable,
    left: &GroupedTable,
    right: &GroupedTable,
    side: JoinSide,
) -> (r: Result<Table, JoinError>)
    ensures
        match r {
            Ok(t) => output_side(output@, left@, right@, side) == Ok::<TableView, JoinError>(t@),
            Err(e) => output_side(output@, left@, right@, side) == Err::<TableView, JoinError>(e),
        },
{
    let (out, width): (Vec<TrackedColumn>, usize) = match check_partition(output, left, right) {
        Ok(x) => x,
        Err(e) => return Err(e),
    };
    let activator: Poly = match activator_of(output) {
        Some(a) => a,
        None => return Err(JoinError::MissingActivator),
    };
    let mut cols: Vec<TrackedColumn> = match side {
        JoinSide::Left => copy_range(&out, 0, width),
        JoinSide::Right => copy_range(&out, width, out.len()),
    };
    proof {
        let views = cols_view(out@);
        assert(views.subrange(0, width as int) =~= views.take(width as int));
        assert(views.subrange(width as int, out@.len() as int) =~= views.skip(width as int));
    }
    insert_col(&mut cols, activator_field(), activator);
    Ok(Table::of(cols, output.log_size))
}

// ---------------------------------------------------------------------------
// The two sides of a lookup
// ---------------------------------------------------------------------------

/// A column that is not the row number, where it is one.
pub open spec fn col_but_row_id() -> spec_fn(ColView) -> Option<ColView> {
    |c: ColView|
        if c.field.name == ROW_ID_COL_NAME@ {
            None
        } else {
            Some(c)
        }
}

/// The annotations of the schema of a table with segments.
pub open spec fn grouped_metadata(t: GroupedTableView) -> Map<Seq<char>, Seq<char>> {
    match t.schema {
        Some(s) => s.metadata,
        None => Map::empty(),
    }
}

/// An input as the table to look rows up in: its columns but the row number.
pub open spec fn input_side(t: GroupedTableView) -> Result<TableView, JoinError> {
    if !one_row_domain(t) {
        Err(JoinError::RowDomain(JoinLabel::Input))
    } else {
        match flat_order_fault(t, JoinLabel::Input) {
            Some(e) => Err(e),
            None => Ok(
                table_with(
                    kept(flat_cols(table_segments(t)), col_but_row_id()),
                    grouped_metadata(t),
                    t.log_size,
                ),
            ),
        }
    }
}

/// An input as the table to look rows up in.
pub fn input_lookup_base(table: &GroupedTable) -> (r: Result<Table, JoinError>)
    ensures
        match r {
            Ok(t) => input_side(table@) == Ok::<TableView, JoinError>(t@),
            Err(e) => input_side(table@) == Err::<TableView, JoinError>(e),
        },
{
    let flat: Vec<TrackedColumn> = match checked_flat(table, JoinLabel::Input) {
        Ok(c) => c,
        Err(e) => return Err(e),
    };
    let ghost views = cols_view(flat@);
    let ghost f = col_but_row_id();
    let mut out: Vec<TrackedColumn> = Vec::new();
    let mut i: usize = 0;
    assert(cols_view(out@) =~= kept(views.take(0), f));
    while i < flat.len()
        invariant
            i <= flat@.len(),
            views == cols_view(flat@),
            f == col_but_row_id(),
            cols_view(out@) == kept(views.take(i as int), f),
        decreases flat@.len() - i,
    {
        proof {
            lemma_kept_step(views, f, i as int);
            assert(views[i as int] == flat@[i as int]@);
        }
        if !same_text(flat[i].field.name.as_str(), ROW_ID_COL_NAME) {
            let ghost before = cols_view(out@);
            let c: TrackedColumn = flat[i].copy();
            out.push(c);
            assert(cols_view(out@) =~= before.push(c@));
        }
        i = i + 1;
    }
    assert(views.take(views.len() as int) =~= views);
    let metadata: Metadata = match &table.schema {
        Some(s) => s.metadata.copy(),
        None => Metadata::new(),
    };
    Ok(Table::with_metadata(out, metadata, table.log_size))
}

/// The one data column of a table of source rows.
pub open spec fn source_column(t: GroupedTableView, label: JoinLabel) -> Result<Poly, JoinError> {
    if !one_row_domain(t) {
        Err(JoinError::RowDomain(label))
    } else {
        let data = indices_where(flat_cols(table_segments(t)), is_data());
        if data.len() != 1 {
            Err(JoinError::SourceColumns(label))
        } else {
            Ok(flat_cols(table_segments(t))[data[0]].poly)
        }
    }
}

/// A table with its segments as columns.
pub fn flat(table: &GroupedTable) -> (r: Table)
    ensures
        r@ == flat_table(table@),
{
    let (cols, _): (Vec<TrackedColumn>, u128) = table.flatten();
    let schema: Option<Schema> = match &table.schema {
        Some(s) => Some(s.copy()),
        None => None,
    };
    let r = Table { schema, cols, side_cols: Vec::new(), log_size: table.log_size };
    assert(r@.side_cols =~= Seq::<SideView>::empty());
    r
}

/// The one data column of a table of source rows.
pub fn single_data_poly(table: &GroupedTable, label: JoinLabel) -> (r: Result<Poly, JoinError>)
    ensures
        r == source_column(table@, label),
{
    if !table.has_one_row_domain() {
        return Err(JoinError::RowDomain(label));
    }
    let t: Table = flat(table);
    let data: Vec<usize> = data_indices(&t);
    assert(ints(data@).len() == data@.len());
    if data.len() != 1 {
        return Err(JoinError::SourceColumns(label));
    }
    assert(ints(data@)[0] == data@[0]);
    assert(t@.cols[data@[0] as int] == t.cols@[data@[0] as int]@);
    Ok(t.cols[data[0]].poly)
}

/// Whether every column of a table is over its rows.
pub open spec fn flat_row_domain(t: TableView) -> bool {
    forall|i: int| 0 <= i < t.cols.len() ==> (#[trigger] t.cols[i]).poly.log_size == t.log_size
}

/// The schema of a table after a column was put behind its columns.
pub open spec fn schema_with(t: TableView, f: FieldView, cols: Seq<ColView>) -> SchemaView {
    match t.schema {
        Some(s) => SchemaView { fields: s.fields.push(f), metadata: s.metadata },
        None => plain_schema(col_fields(cols)),
    }
}

/// The table with the source rows behind its columns.
pub open spec fn appended(t: TableView, f: FieldView, p: Poly) -> Result<TableView, JoinError> {
    if !flat_row_domain(t) {
        Err(JoinError::RowDomain(JoinLabel::Lookup))
    } else if t.cols.len() == 0 {
        Err(JoinError::NoColumns)
    } else if t.cols[0].poly.tracker != p.tracker {
        Err(JoinError::Trackers)
    } else if p.log_size != t.log_size {
        Err(JoinError::LogSize { actual: p.log_size, expected: t.log_size })
    } else if name_index(t.cols, f.name) is Some {
        Err(JoinError::Collision)
    } else if is_system_name(f.name) {
        Err(JoinError::Width)
    } else {
        let cols = t.cols.push(ColView { field: f, poly: p });
        Ok(
            TableView {
                schema: Some(schema_with(t, f, cols)),
                cols,
                side_cols: Seq::empty(),
                log_size: t.log_size,
            },
        )
    }
}

fn has_flat_row_domain(table: &Table) -> (r: bool)
    ensures
        r == flat_row_domain(table@),
{
    let mut i: usize = 0;
    while i < table.cols.len()
        invariant
            i <= table.cols@.len(),
            forall|j: int|
                0 <= j < i ==> (#[trigger] table@.cols[j]).poly.log_size == table.log_size,
        decreases table.cols@.len() - i,
    {
        assert(table@.cols[i as int] == table.cols@[i as int]@);
        if table.cols[i].poly.log_size != table.log_size {
            return false;
        }
        i = i + 1;
    }
    true
}

/// The table with the source rows behind its columns.
pub fn append_tracked_col(table: &Table, field: Field, poly: Poly) -> (r: Result<Table, JoinError>)
    ensures
        match r {
            Ok(t) => appended(table@, field@, poly) == Ok::<TableView, JoinError>(t@),
            Err(e) => appended(table@, field@, poly) == Err::<TableView, JoinError>(e),
        },
{
    if !has_flat_row_domain(table) {
        return Err(JoinError::RowDomain(JoinLabel::Lookup));
    }
    if table.cols.len() == 0 {
        return Err(JoinError::NoColumns);
    }
    assert(table@.cols[0] == table.cols@[0]@);
    if table.cols[0].poly.tracker != poly.tracker {
        return Err(JoinError::Trackers);
    }
    if poly.log_size != table.log_size {
        return Err(JoinError::LogSize { actual: poly.log_size, expected: table.log_size });
    }
    if find_name(&table.cols, field.name.as_str()).is_some() {
        return Err(JoinError::Collision);
    }
    if is_system_column(field.name.as_str()) {
        return Err(JoinError::Width);
    }
    let mut cols: Vec<TrackedColumn> = copy_cols(&table.cols);
    let ghost before = cols_view(cols@);
    cols.push(TrackedColumn { field: field.copy(), poly });
    assert(cols_view(cols@) =~= before.push(ColView { field: field@, poly }));
    let ghost f = field@;
    let schema: Schema = match &table.schema {
        Some(s) => {
            let mut fields: Vec<Field> = copy_fields(&s.fields);
            let ghost was = fields_view(fields@);
            fields.push(field);
            assert(fields_view(fields@) =~= was.push(f));
            Schema { fields, metadata: s.metadata.copy() }
        },
        None => Schema { fields: fields_of(&cols), metadata: Metadata::new() },
    };
    let r = Table { schema: Some(schema), cols, side_cols: Vec::new(), log_size: table.log_size };
    assert(r@.side_cols =~= Seq::<SideView>::empty());
    Ok(r)
}

/// What the columns of a table are folded into: the one column as it is, or
/// all data columns by the challenges.
#[derive(Debug, Clone, Copy, PartialEq, Eq, Structural)]
pub enum Fold {
    Single(usize),
    All,
}

/// How a table with the given data columns is folded.
pub open spec fn fold_of(t: TableView, challenges: nat) -> Result<Fold, JoinError> {
    let data = indices_where(t.cols, is_data());
    if data.len() == 0 || data.len() != challenges {
        Err(
            JoinError::FoldWidth {
                fields: data.len() as usize,
                challenges: challenges as usize,
            },
        )
    } else if data.len() == 1 {
        Ok(Fold::Single(data[0] as usize))
    } else {
        Ok(Fold::All)
    }
}

/// How a table is folded with this many challenges.
pub fn fold_lookup_table(table: &Table, challenges: usize) -> (r: Result<Fold, JoinError>)
    ensures
        r == fold_of(table@, challenges as nat),
{
    let data: Vec<usize> = data_indices(table);
    assert(ints(data@).len() == data@.len());
    if data.len() == 0 || data.len() != challenges {
        return Err(JoinError::FoldWidth { fields: data.len(), challenges });
    }
    if data.len() == 1 {
        assert(ints(data@)[0] == data@[0]);
        return Ok(Fold::Single(data[0]));
    }
    Ok(Fold::All)
}

/// Where the row numbers of an input come from.
#[derive(Debug, Clone, Copy, PartialEq, Eq, Structural)]
pub enum IndexSource {
    /// The input's own column of row numbers.
    Column(Poly),
    /// The numbers from zero, over a domain of this size.
    Count { log_size: usize },
    /// The numbers from zero, over the domain of this data column.
    CountOver(Poly),
}

/// Where the row numbers of an input come from. The verifier has no domain
/// to count over where an input without row numbers has no data column.
pub open spec fn index_source(t: GroupedTableView, party: Party) -> Option<IndexSource> {
    let cols = flat_cols(table_segments(t));
    match name_index(cols, ROW_ID_COL_NAME@) {
        Some(i) => Some(IndexSource::Column(cols[i].poly)),
        None => match party {
            Party::Prover => Some(IndexSource::Count { log_size: t.log_size }),
            Party::Verifier => {
                let data = indices_where(cols, is_data());
                if data.len() == 0 {
                    None
                } else {
                    Some(IndexSource::CountOver(cols[data[0]].poly))
                }
            },
        },
    }
}

/// Where the row numbers of an input come from.
pub fn index_poly(table: &GroupedTable, party: Party) -> (r: Option<IndexSource>)
    ensures
        r == index_source(table@, party),
{
    let t: Table = flat(table);
    match t.poly_by_name(ROW_ID_COL_NAME) {
        Some(p) => Some(IndexSource::Column(p)),
        None => match party {
            Party::Prover => Some(IndexSource::Count { log_size: table.log_size }),
            Party::Verifier => {
                let data: Vec<usize> = data_indices(&t);
                assert(ints(data@).len() == data@.len());
                if data.len() == 0 {
                    None
                } else {
                    assert(ints(data@)[0] == data@[0]);
                    assert(t@.cols[data@[0] as int] == t.cols@[data@[0] as int]@);
                    Some(IndexSource::CountOver(t.cols[data[0]].poly))
                }
            },
        },
    }
}

// ---------------------------------------------------------------------------
// A lookup
// ---------------------------------------------------------------------------

/// The name of the column of source rows of a side.
pub open spec fn source_name(side: JoinSide) -> Seq<char> {
    match side {
        JoinSide::Left => SRC_LEFT_COL_NAME@,
        JoinSide::Right => SRC_RIGHT_COL_NAME@,
    }
}

/// The column of source rows of a side.
pub open spec fn source_field(side: JoinSide) -> FieldView {
    plain_field(source_name(side), TypeView::Int64, true)
}

/// The label of the table of source rows of a side.
pub open spec fn source_label(side: JoinSide) -> JoinLabel {
    match side {
        JoinSide::Left => JoinLabel::SrcLeftTable,
        JoinSide::Right => JoinLabel::SrcRightTable,
    }
}

/// The output's rows to look up for one input: the columns that come from it
/// and the number of its row.
pub open spec fn included_side(
    output: GroupedTableView,
    left: GroupedTableView,
    right: GroupedTableView,
    source: GroupedTableView,
    side: JoinSide,
) -> Result<TableView, JoinError> {
    match output_side(output, left, right, side) {
        Err(e) => Err(e),
        Ok(base) => match source_column(source, source_label(side)) {
            Err(e) => Err(e),
            Ok(p) => appended(base, source_field(side), p),
        },
    }
}

/// The rows of an input to find them among: its columns and the number of
/// the row.
pub open spec fn searched_side(input: GroupedTableView, index: Poly, side: JoinSide) -> Result<
    TableView,
    JoinError,
> {
    match input_side(input) {
        Err(e) => Err(e),
        Ok(rows) => appended(rows, source_field(side), index),
    }
}

/// The input of a side.
pub open spec fn side_of(
    left: GroupedTableView,
    right: GroupedTableView,
    side: JoinSide,
) -> GroupedTableView {
    match side {
        JoinSide::Left => left,
        JoinSide::Right => right,
    }
}

/// The output's rows and the rows that they must be among, for one input.
pub open spec fn lookup_pair(
    output: GroupedTableView,
    left: GroupedTableView,
    right: GroupedTableView,
    source: GroupedTableView,
    index: Poly,
    side: JoinSide,
) -> Result<(TableView, TableView), JoinError> {
    match included_side(output, left, right, source, side) {
        Err(e) => Err(e),
        Ok(included) => match searched_side(side_of(left, right, side), index, side) {
            Err(e) => Err(e),
            Ok(all) => Ok((included, all)),
        },
    }
}

/// The column of source rows of a side.
fn make_source_field(side: JoinSide) -> (r: Field)
    ensures
        r@ == source_field(side),
{
    let name: &'static str = match side {
        JoinSide::Left => SRC_LEFT_COL_NAME,
        JoinSide::Right => SRC_RIGHT_COL_NAME,
    };
    Field::new(name, DataType::Int64, true)
}

/// The output's rows to look up for one input.
pub fn included_table(
    output: &GroupedTable,
    left: &GroupedTable,
    right: &GroupedTable,
    source: &GroupedTable,
    side: JoinSide,
) -> (r: Result<Table, JoinError>)
    ensures
        match r {
            Ok(t) => included_side(output@, left@, right@, source@, side) == Ok::<
                TableView,
                JoinError,
            >(t@),
            Err(e) => included_side(output@, left@, right@, source@, side) == Err::<
                TableView,
                JoinError,
            >(e),
        },
{
    let base: Table = match output_lookup_base(output, left, right, side) {
        Ok(t) => t,
        Err(e) => return Err(e),
    };
    let label: JoinLabel = match side {
        JoinSide::Left => JoinLabel::SrcLeftTable,
        JoinSide::Right => JoinLabel::SrcRightTable,
    };
    let rows_of: Poly = match single_data_poly(source, label) {
        Ok(p) => p,
        Err(e) => return Err(e),
    };
    append_tracked_col(&base, make_source_field(side), rows_of)
}

/// The rows of an input to find the output's rows among. `index` holds their
/// numbers.
pub fn searched_table(input: &GroupedTable, index: Poly, side: JoinSide) -> (r: Result<
    Table,
    JoinError,
>)
    ensures
        match r {
            Ok(t) => searched_side(input@, index, side) == Ok::<TableView, JoinError>(t@),
            Err(e) => searched_side(input@, index, side) == Err::<TableView, JoinError>(e),
        },
{
    let rows: Table = match input_lookup_base(input) {
        Ok(t) => t,
        Err(e) => return Err(e),
    };
    append_tracked_col(&rows, make_source_field(side), index)
}

/// The output's rows and the rows that they must be among, for one input.
/// `index` holds the row numbers of that input.
pub fn lookup_tables(
    output: &GroupedTable,
    left: &GroupedTable,
    right: &GroupedTable,
    source: &GroupedTable,
    index: Poly,
    side: JoinSide,
) -> (r: Result<(Table, Table), JoinError>)
    ensures
        match r {
            Ok((included, all)) => lookup_pair(output@, left@, right@, source@, index, side) == Ok::<
                (TableView, TableView),
                JoinError,
            >((included@, all@)),
            Err(e) => lookup_pair(output@, left@, right@, source@, index, side) == Err::<
                (TableView, TableView),
                JoinError,
            >(e),
        },
{
    let included: Table = match included_table(output, left, right, source, side) {
        Ok(t) => t,
        Err(e) => return Err(e),
    };
    let input: &GroupedTable = match side {
        JoinSide::Left => left,
        JoinSide::Right => right,
    };
    match searched_table(input, index, side) {
        Ok(all) => Ok((included, all)),
        Err(e) => Err(e),
    }
}

/// Why a join cannot be proved.
#[derive(Debug, Clone, Copy, PartialEq, Eq, Structural)]
pub enum JoinFault {
    Unsupported(JoinUnsupported),
    Wiring(JoinError),
}

/// The tables of the two lookups of a join.
#[derive(Debug)]
pub struct JoinLookups {
    pub included_left: Table,
    pub searched_left: Table,
    pub included_right: Table,
    pub searched_right: Table,
}

/// Mathematical counterpart of [`JoinLookups`].
#[verifier::ext_equal]
pub struct LookupsView {
    pub included_left: TableView,
    pub searched_left: TableView,
    pub included_right: TableView,
    pub searched_right: TableView,
}

impl JoinLookups {
    /// The tables as mathematical values.
    pub open spec fn view(&self) -> LookupsView {
        LookupsView {
            included_left: self.included_left@,
            searched_left: self.searched_left@,
            included_right: self.included_right@,
            searched_right: self.searched_right@,
        }
    }
}

/// The tables of the two lookups of a join, the left lookup first. A join of
/// an unsupported shape has none.
pub open spec fn lookups(
    join: JoinView,
    output: GroupedTableView,
    left: GroupedTableView,
    right: GroupedTableView,
    sources: (GroupedTableView, GroupedTableView),
    indices: (Poly, Poly),
) -> Result<LookupsView, JoinFault> {
    match unsupported(join) {
        Some(u) => Err(JoinFault::Unsupported(u)),
        None => match lookup_pair(output, left, right, sources.0, indices.0, JoinSide::Left) {
            Err(e) => Err(JoinFault::Wiring(e)),
            Ok((included_left, searched_left)) => match lookup_pair(
                output,
                left,
                right,
                sources.1,
                indices.1,
                JoinSide::Right,
            ) {
                Err(e) => Err(JoinFault::Wiring(e)),
                Ok((included_right, searched_right)) => Ok(
                    LookupsView { included_left, searched_left, included_right, searched_right },
                ),
            },
        },
    }
}

/// The tables of the two lookups of a join. Prover and verifier form them
/// from their own handles alike.
pub fn join_lookups(
    join: &Join,
    output: &GroupedTable,
    left: &GroupedTable,
    right: &GroupedTable,
    sources: (&GroupedTable, &GroupedTable),
    indices: (Poly, Poly),
) -> (r: Result<JoinLookups, JoinFault>)
    ensures
        match r {
            Ok(l) => lookups(
                join@,
                output@,
                left@,
                right@,
                (sources.0@, sources.1@),
                indices,
            ) == Ok::<LookupsView, JoinFault>(l@),
            Err(e) => lookups(
                join@,
                output@,
                left@,
                right@,
                (sources.0@, sources.1@),
                indices,
            ) == Err::<LookupsView, JoinFault>(e),
        },
{
    match ensure_supported_join(join) {
        Ok(_) => {},
        Err(u) => return Err(JoinFault::Unsupported(u)),
    }
    let (included_left, searched_left): (Table, Table) = match lookup_tables(
        output,
        left,
        right,
        sources.0,
        indices.0,
        JoinSide::Left,
    ) {
        Ok(p) => p,
        Err(e) => return Err(JoinFault::Wiring(e)),
    };
    let (included_right, searched_right): (Table, Table) = match lookup_tables(
        output,
        left,
        right,
        sources.1,
        indices.1,
        JoinSide::Right,
    ) {
        Ok(p) => p,
        Err(e) => return Err(JoinFault::Wiring(e)),
    };
    Ok(JoinLookups { included_left, searched_left, included_right, searched_right })
}

// ---------------------------------------------------------------------------
// Checking a lookup on the values
// ---------------------------------------------------------------------------

/// Satisfied by the values that are not in the list.
pub open spec fn is_absent_from(all: Seq<Vec<u8>>) -> spec_fn(Vec<u8>) -> bool {
    |v: Vec<u8>| forall|j: int| 0 <= j < all.len() ==> (#[trigger] all[j])@ != v@
}

/// The values of a list as a set.
pub open spec fn value_set(all: Seq<Vec<u8>>) -> Set<Seq<u8>> {
    Set::new(|b: Seq<u8>| exists|j: int| 0 <= j < all.len() && (#[trigger] all[j])@ == b)
}

/// Position of the first folded output row that is not among the folded rows
/// of the input. Rows are given by the canonical bytes of their values.
pub fn find_missing_row(included: &Vec<Vec<u8>>, all: &Vec<Vec<u8>>) -> (r: Option<usize>)
    ensures
        match r {
            Some(i) => first_index(included@, is_absent_from(all@)) == Some(i as int),
            None => first_index(included@, is_absent_from(all@)) is None,
        },
{
    let mut set: IndexSet<Vec<u8>> = new_members();
    let mut i: usize = 0;
    assert(members(set) =~= value_set(all@.take(0)));
    while i < all.len()
        invariant
            i <= all@.len(),
            members(set) == value_set(all@.take(i as int)),
        decreases all@.len() - i,
    {
        let ghost before = members(set);
        put_member(&mut set, copy_bytes(&all[i]));
        proof {
            let t = all@.take(i + 1);
            assert(t.last() == all@[i as int]);
            assert(all@.take(i as int) =~= t.drop_last());
            assert forall|b: Seq<u8>| value_set(t).contains(b) implies members(set).contains(b) by {
                let j = choose|j: int| 0 <= j < t.len() && (#[trigger] t[j])@ == b;
                if j < i {
                    assert(t.drop_last()[j]@ == b);
                }
            }
            assert forall|b: Seq<u8>| members(set).contains(b) implies value_set(t).contains(b) by {
                if before.contains(b) {
                    let j = choose|j: int|
                        0 <= j < t.drop_last().len() && (#[trigger] t.drop_last()[j])@ == b;
                    assert(t[j]@ == b);
                } else {
                    assert(t[i as int]@ == b);
                }
            }
            assert(members(set) =~= value_set(t));
        }
        i = i + 1;
    }
    assert(all@.take(all@.len() as int) =~= all@);
    let ghost p = is_absent_from(all@);
    let mut k: usize = 0;
    while k < included.len()
        invariant
            k <= included@.len(),
            members(set) == value_set(all@),
            p == is_absent_from(all@),
            forall|j: int| 0 <= j < k ==> !p(#[trigger] included@[j]),
        decreases included@.len() - k,
    {
        if !has_member(&set, &included[k]) {
            proof {
                let v = included@[k as int];
                assert forall|j: int| 0 <= j < all@.len() implies (#[trigger] all@[j])@ != v@ by {
                    if all@[j]@ == v@ {
                        assert(value_set(all@).contains(v@));
                    }
                }
                lemma_is_first(included@, p, k as int);
            }
            return Some(k);
        }
        k = k + 1;
    }
    proof {
        lemma_no_first(included@, p);
    }
    None
}

// ---------------------------------------------------------------------------
// Laws
// ---------------------------------------------------------------------------

proof fn lemma_data_count(s: Seq<ColView>)
    ensures
        kept(s, data_col()).len() == indices_where(s, is_data()).len(),
        forall|i: int|
            0 <= i < kept(s, data_col()).len() ==> !is_system_name(
                (#[trigger] kept(s, data_col())[i]).field.name,
            ),
    decreases s.len(),
{
    if s.len() > 0 {
        lemma_data_count(s.drop_last());
    }
}

proof fn lemma_row_id_is_no_data(s: Seq<ColView>)
    ensures
        kept(kept(s, col_but_row_id()), data_col()) == kept(s, data_col()),
    decreases s.len(),
{
    let f = col_but_row_id();
    if s.len() > 0 {
        lemma_row_id_is_no_data(s.drop_last());
        let before = kept(s.drop_last(), f);
        if s.last().field.name != ROW_ID_COL_NAME@ {
            assert(kept(s, f) == before.push(s.last()));
            assert(before.push(s.last()).drop_last() =~= before);
        }
    }
}

proof fn lemma_all_data(s: Seq<ColView>)
    requires
        forall|i: int| 0 <= i < s.len() ==> !is_system_name((#[trigger] s[i]).field.name),
    ensures
        indices_where(s, is_data()).len() == s.len(),
    decreases s.len(),
{
    if s.len() > 0 {
        assert forall|i: int| 0 <= i < s.drop_last().len() implies !is_system_name(
            (#[trigger] s.drop_last()[i]).field.name,
        ) by {
            assert(s.drop_last()[i] == s[i]);
        }
        lemma_all_data(s.drop_last());
    }
}

proof fn lemma_count_push(s: Seq<ColView>, c: ColView)
    ensures
        indices_where(s.push(c), is_data()).len() == indices_where(s, is_data()).len() + (
        if is_system_name(c.field.name) {
            0int
        } else {
            1int
        }),
{
    assert(s.push(c).drop_last() =~= s);
}

proof fn lemma_all_compatible(out: Seq<ColView>, expected: Seq<ColView>, n: nat)
    requires
        first_incompatible(out, expected, n) is None,
    ensures
        forall|i: int|
            0 <= i < n ==> compatible((#[trigger] out[i]).field, expected[i].field),
    decreases n,
{
    if n > 0 {
        lemma_all_compatible(out, expected, (n - 1) as nat);
    }
}

/// The columns of one side of the output: data columns of the output, then
/// the activator.
pub proof fn lemma_side_cols(selected: Seq<ColView>, a: Poly)
    requires
        forall|i: int|
            0 <= i < selected.len() ==> !is_system_name((#[trigger] selected[i]).field.name),
    ensures
        cols_insert(selected, activator_field_view(), a) == selected.push(
            ColView { field: activator_field_view(), poly: a },
        ),
{
    lemma_field_index(selected, activator_field_view());
    if field_index(selected, activator_field_view()) is Some {
        let k = field_index(selected, activator_field_view())->0;
        assert(is_system_name(selected[k].field.name));
    }
}

/// The columns of an accepted output are data columns.
pub proof fn lemma_output_data(
    output: GroupedTableView,
    left: GroupedTableView,
    right: GroupedTableView,
)
    requires
        partitioned(output, left, right) is Ok,
    ensures
        ({
            let (out, width) = partitioned(output, left, right)->Ok_0;
            &&& data_cols(output, JoinLabel::Output) == Ok::<Seq<ColView>, JoinError>(out)
            &&& data_cols(left, JoinLabel::LeftInput) is Ok
            &&& width == data_cols(left, JoinLabel::LeftInput)->Ok_0.len()
            &&& width <= out.len()
            &&& forall|i: int|
                0 <= i < out.len() ==> !is_system_name((#[trigger] out[i]).field.name)
        }),
{
    lemma_data_count(flat_cols(table_segments(output)));
}

/// The parts of a join's output that come from its inputs make up its data:
/// the left part in front, the right part behind it, and each part has the
/// output's activator.
pub proof fn output_is_partitioned(
    output: GroupedTableView,
    left: GroupedTableView,
    right: GroupedTableView,
)
    requires
        output_side(output, left, right, JoinSide::Left) is Ok,
    ensures
        output_side(output, left, right, JoinSide::Right) is Ok,
        data_cols(output, JoinLabel::Output) is Ok,
        data_cols(output, JoinLabel::Output)->Ok_0 == output_side(
            output,
            left,
            right,
            JoinSide::Left,
        )->Ok_0.cols.drop_last() + output_side(
            output,
            left,
            right,
            JoinSide::Right,
        )->Ok_0.cols.drop_last(),
        output_side(output, left, right, JoinSide::Left)->Ok_0.cols.last().poly
            == grouped_activator(output)->0,
        output_side(output, left, right, JoinSide::Right)->Ok_0.cols.last().poly
            == grouped_activator(output)->0,
{
    let (out, width) = partitioned(output, left, right)->Ok_0;
    let a = grouped_activator(output)->0;
    lemma_data_count(flat_cols(table_segments(output)));
    let l = out.take(width as int);
    let r = out.skip(width as int);
    assert forall|i: int| 0 <= i < l.len() implies !is_system_name(
        (#[trigger] l[i]).field.name,
    ) by {
        assert(l[i] == out[i]);
    }
    assert forall|i: int| 0 <= i < r.len() implies !is_system_name(
        (#[trigger] r[i]).field.name,
    ) by {
        assert(r[i] == out[i + width]);
    }
    lemma_side_cols(l, a);
    lemma_side_cols(r, a);
    let c = ColView { field: activator_field_view(), poly: a };
    assert(l.push(c).drop_last() =~= l);
    assert(r.push(c).drop_last() =~= r);
    assert(out =~= l + r);
}

/// In an output that is accepted, every data column stands where the input
/// column that it stands for does, and no column of the one input passes for
/// a column of the other.
pub proof fn accepted_outputs_keep_provenance(
    output: GroupedTableView,
    left: GroupedTableView,
    right: GroupedTableView,
    i: int,
)
    requires
        partitioned(output, left, right) is Ok,
        0 <= i < partitioned(output, left, right)->Ok_0.0.len(),
    ensures
        partitioned(output, left, right)->Ok_0.0.len() == data_cols(
            left,
            JoinLabel::LeftInput,
        )->Ok_0.len() + data_cols(right, JoinLabel::RightInput)->Ok_0.len(),
        compatible(
            partitioned(output, left, right)->Ok_0.0[i].field,
            (data_cols(left, JoinLabel::LeftInput)->Ok_0 + data_cols(
                right,
                JoinLabel::RightInput,
            )->Ok_0)[i].field,
        ),
        !share_provenance(
            data_cols(left, JoinLabel::LeftInput)->Ok_0,
            data_cols(right, JoinLabel::RightInput)->Ok_0,
        ),
{
    let out = partitioned(output, left, right)->Ok_0.0;
    let expected = data_cols(left, JoinLabel::LeftInput)->Ok_0 + data_cols(
        right,
        JoinLabel::RightInput,
    )->Ok_0;
    lemma_all_compatible(out, expected, out.len());
    assert(out[i] == out[i]);
}

/// The two sides of a lookup have the same number of data columns, at least
/// one: the challenges that fold the one fold the other.
pub proof fn lookup_sides_fold_alike(
    output: GroupedTableView,
    left: GroupedTableView,
    right: GroupedTableView,
    source: GroupedTableView,
    index: Poly,
    side: JoinSide,
)
    requires
        lookup_pair(output, left, right, source, index, side) is Ok,
    ensures
        ({
            let (included, all) = lookup_pair(output, left, right, source, index, side)->Ok_0;
            let width = indices_where(included.cols, is_data()).len();
            &&& width > 0
            &&& indices_where(all.cols, is_data()).len() == width
            &&& fold_of(included, width) is Ok
            &&& fold_of(all, width) is Ok
        }),
{
    let (out, width) = partitioned(output, left, right)->Ok_0;
    let a = grouped_activator(output)->0;
    lemma_data_count(flat_cols(table_segments(output)));
    let input = match side {
        JoinSide::Left => left,
        JoinSide::Right => right,
    };
    let selected = match side {
        JoinSide::Left => out.take(width as int),
        JoinSide::Right => out.skip(width as int),
    };
    assert forall|i: int| 0 <= i < selected.len() implies !is_system_name(
        (#[trigger] selected[i]).field.name,
    ) by {
        match side {
            JoinSide::Left => assert(selected[i] == out[i]),
            JoinSide::Right => assert(selected[i] == out[i + width]),
        }
    }
    lemma_side_cols(selected, a);
    lemma_all_data(selected);
    let c = ColView { field: activator_field_view(), poly: a };
    lemma_count_push(selected, c);
    let p = source_column(source, source_label(side))->Ok_0;
    lemma_count_push(selected.push(c), ColView { field: source_field(side), poly: p });
    let segments = flat_cols(table_segments(input));
    let rows = kept(segments, col_but_row_id());
    lemma_row_id_is_no_data(segments);
    lemma_data_count(segments);
    lemma_data_count(rows);
    lemma_count_push(rows, ColView { field: source_field(side), poly: index });
}

// ---------------------------------------------------------------------------
// Which tables the lookups get
// ---------------------------------------------------------------------------

proof fn lemma_kept_cols(s: Seq<ColView>, f: spec_fn(ColView) -> Option<ColView>)
    requires
        forall|c: ColView| (#[trigger] f(c)) matches Some(d) ==> d == c,
    ensures
        forall|i: int|
            0 <= i < kept(s, f).len() ==> s.contains(#[trigger] kept(s, f)[i]) && f(kept(s, f)[i])
                is Some,
        forall|j: int|
            0 <= j < s.len() && f(#[trigger] s[j]) is Some ==> kept(s, f).contains(s[j]),
    decreases s.len(),
{
    if s.len() > 0 {
        let t = s.drop_last();
        lemma_kept_cols(t, f);
        let before = kept(t, f);
        let now = kept(s, f);
        assert forall|i: int| 0 <= i < now.len() implies s.contains(#[trigger] now[i]) && f(
            now[i],
        ) is Some by {
            if i < before.len() {
                assert(now[i] == before[i]);
                let j = choose|j: int| 0 <= j < t.len() && t[j] == before[i];
                assert(s[j] == before[i]);
            } else {
                assert(s[s.len() - 1] == now[i]);
                assert(f(s.last()) is Some);
            }
        }
        assert forall|j: int| 0 <= j < s.len() && f(#[trigger] s[j]) is Some implies now.contains(
            s[j],
        ) by {
            if j < t.len() {
                assert(t[j] == s[j]);
                let i = choose|i: int| 0 <= i < before.len() && before[i] == t[j];
                assert(now[i] == s[j]);
            } else {
                assert(now[before.len() as int] == s[j]);
            }
        }
    }
}

/// The data columns of a table are exactly its columns that are no system
/// columns.
pub proof fn data_columns_are_the_columns_of_the_query(t: GroupedTableView, label: JoinLabel)
    requires
        data_cols(t, label) is Ok,
    ensures
        forall|i: int|
            0 <= i < data_cols(t, label)->Ok_0.len() ==> flat_cols(table_segments(t)).contains(
                #[trigger] data_cols(t, label)->Ok_0[i],
            ) && data_cols(t, label)->Ok_0[i].field.name != "__activator__"@ && data_cols(
                t,
                label,
            )->Ok_0[i].field.name != "__row_id__"@,
        forall|j: int|
            0 <= j < flat_cols(table_segments(t)).len() && (#[trigger] flat_cols(
                table_segments(t),
            )[j]).field.name != "__activator__"@ && flat_cols(table_segments(t))[j].field.name
                != "__row_id__"@ ==> data_cols(t, label)->Ok_0.contains(
                flat_cols(table_segments(t))[j],
            ),
{
    lemma_kept_cols(flat_cols(table_segments(t)), data_col());
}

/// Whether a table holds every column of an input but the row number, and no
/// other, in front of its last column.
pub open spec fn holds_the_rows_of(t: TableView, input: GroupedTableView) -> bool {
    let cols = flat_cols(table_segments(input));
    &&& t.cols.len() > 0
    &&& t.log_size == input.log_size
    &&& forall|i: int|
        0 <= i < t.cols.len() - 1 ==> cols.contains(#[trigger] t.cols[i])
            && t.cols[i].field.name != "__row_id__"@
    &&& forall|j: int|
        0 <= j < cols.len() && (#[trigger] cols[j]).field.name != "__row_id__"@
            ==> t.cols.drop_last().contains(cols[j])
}

proof fn lemma_searched(input: GroupedTableView, index: Poly, side: JoinSide)
    requires
        searched_side(input, index, side) is Ok,
    ensures
        holds_the_rows_of(searched_side(input, index, side)->Ok_0, input),
        searched_side(input, index, side)->Ok_0.cols.last().poly == index,
        searched_side(input, index, side)->Ok_0.cols.last().field.name == source_name(side),
{
    let cols = flat_cols(table_segments(input));
    lemma_kept_cols(cols, col_but_row_id());
    let rows = input_side(input)->Ok_0;
    let t = searched_side(input, index, side)->Ok_0;
    assert(t.cols.drop_last() =~= rows.cols);
    assert forall|i: int| 0 <= i < t.cols.len() - 1 implies cols.contains(#[trigger] t.cols[i])
        && t.cols[i].field.name != "__row_id__"@ by {
        assert(t.cols[i] == rows.cols[i]);
    }
}

/// The rows that the left lookup includes are the output's columns of its left
/// part, in order, with the output's activator and the numbers of the left
/// source rows; they are searched in the left input with the numbers of its own
/// rows. The right lookup is the same for the right.
pub proof fn lookups_keep_to_their_side(
    join: JoinView,
    output: GroupedTableView,
    left: GroupedTableView,
    right: GroupedTableView,
    sources: (GroupedTableView, GroupedTableView),
    indices: (Poly, Poly),
)
    requires
        lookups(join, output, left, right, sources, indices) is Ok,
    ensures
        data_cols(output, JoinLabel::Output) is Ok,
        data_cols(left, JoinLabel::LeftInput) is Ok,
        ({
            let v = lookups(join, output, left, right, sources, indices)->Ok_0;
            let out = data_cols(output, JoinLabel::Output)->Ok_0;
            let width = data_cols(left, JoinLabel::LeftInput)->Ok_0.len() as int;
            let rest = out.len() - width;
            &&& v.included_left.cols.len() == width + 2
            &&& v.included_right.cols.len() == rest + 2
            &&& forall|i: int| 0 <= i < width ==> #[trigger] v.included_left.cols[i] == out[i]
            &&& forall|i: int|
                0 <= i < rest ==> #[trigger] v.included_right.cols[i] == out[width + i]
            &&& v.included_left.cols[width].field.name == "__activator__"@
            &&& v.included_right.cols[rest].field.name == "__activator__"@
            &&& grouped_activator(output) == Some(v.included_left.cols[width].poly)
            &&& grouped_activator(output) == Some(v.included_right.cols[rest].poly)
            &&& v.included_left.cols.last().field.name == "src_left"@
            &&& v.included_right.cols.last().field.name == "src_right"@
            &&& source_column(sources.0, JoinLabel::SrcLeftTable) == Ok::<Poly, JoinError>(
                v.included_left.cols.last().poly,
            )
            &&& source_column(sources.1, JoinLabel::SrcRightTable) == Ok::<Poly, JoinError>(
                v.included_right.cols.last().poly,
            )
            &&& v.included_left.log_size == output.log_size
            &&& v.included_right.log_size == output.log_size
            &&& holds_the_rows_of(v.searched_left, left)
            &&& holds_the_rows_of(v.searched_right, right)
            &&& v.searched_left.cols.last().field.name == "src_left"@
            &&& v.searched_right.cols.last().field.name == "src_right"@
            &&& v.searched_left.cols.last().poly == indices.0
            &&& v.searched_right.cols.last().poly == indices.1
        }),
{
    let (out, width) = partitioned(output, left, right)->Ok_0;
    let a = grouped_activator(output)->0;
    lemma_output_data(output, left, right);
    let l = out.take(width as int);
    let r = out.skip(width as int);
    assert forall|i: int| 0 <= i < l.len() implies !is_system_name(
        (#[trigger] l[i]).field.name,
    ) by {
        assert(l[i] == out[i]);
    }
    assert forall|i: int| 0 <= i < r.len() implies !is_system_name(
        (#[trigger] r[i]).field.name,
    ) by {
        assert(r[i] == out[i + width]);
    }
    lemma_side_cols(l, a);
    lemma_side_cols(r, a);
    lemma_searched(left, indices.0, JoinSide::Left);
    lemma_searched(right, indices.1, JoinSide::Right);
    let v = lookups(join, output, left, right, sources, indices)->Ok_0;
    assert forall|i: int| 0 <= i < width implies #[trigger] v.included_left.cols[i] == out[i] by {
        assert(v.included_left.cols[i] == l[i]);
    }
    assert forall|i: int| 0 <= i < out.len() - width implies #[trigger] v.included_right.cols[i]
        == out[width + i] by {
        assert(v.included_right.cols[i] == r[i]);
    }
}

/// An accepted output has the columns of the left input in front and those of
/// the right input behind them: each under the name and the qualifier of the
/// input column at its place, of the same type, and null where that may be.
pub proof fn output_columns_stand_for_input_columns(
    output: GroupedTableView,
    left: GroupedTableView,
    right: GroupedTableView,
    i: int,
)
    requires
        partitioned(output, left, right) is Ok,
        0 <= i < partitioned(output, left, right)->Ok_0.0.len(),
    ensures
        ({
            let l = data_cols(left, JoinLabel::LeftInput)->Ok_0;
            let r = data_cols(right, JoinLabel::RightInput)->Ok_0;
            let out = partitioned(output, left, right)->Ok_0.0;
            let from = if i < l.len() {
                l[i].field
            } else {
                r[i - l.len()].field
            };
            &&& data_cols(output, JoinLabel::Output) == Ok::<Seq<ColView>, JoinError>(out)
            &&& out.len() == l.len() + r.len()
            &&& out[i].field.name == from.name
            &&& out[i].field.data_type == from.data_type
            &&& out[i].field.nullable == from.nullable
            &&& qualifier_of(out[i].field) == qualifier_of(from)
        }),
{
    accepted_outputs_keep_provenance(output, left, right, i);
}

/// No row is missing exactly when every included value is among the others; a
/// row that is reported is one whose value is not.
pub proof fn missing_rows_are_not_among_the_others(included: Seq<Vec<u8>>, all: Seq<Vec<u8>>)
    ensures
        match first_index(included, is_absent_from(all)) {
            None => forall|i: int|
                0 <= i < included.len() ==> exists|j: int|
                    0 <= j < all.len() && (#[trigger] all[j])@ == (#[trigger] included[i])@,
            Some(i) => 0 <= i < included.len() && forall|j: int|
                0 <= j < all.len() ==> (#[trigger] all[j])@ != included[i]@,
        },
{
    let p = is_absent_from(all);
    lemma_first_index(included, p);
    match first_index(included, p) {
        None => {
            assert forall|i: int| 0 <= i < included.len() implies exists|j: int|
                0 <= j < all.len() && (#[trigger] all[j])@ == (#[trigger] included[i])@ by {
                assert(!p(included[i]));
            }
        },
        Some(i) => {
            assert(p(included[i]));
        },
    }
}

/// The rows of an input are numbered by its own column of row numbers where it
/// has one; else the prover counts over the rows of the input, and the verifier
/// over those of a data column of the input.
pub proof fn rows_are_numbered_by_their_own_column(t: GroupedTableView, party: Party)
    ensures
        ({
            let cols = flat_cols(table_segments(t));
            match index_source(t, party) {
                Some(IndexSource::Column(p)) => exists|i: int|
                    0 <= i < cols.len() && (#[trigger] cols[i]).field.name == "__row_id__"@
                        && cols[i].poly == p,
                Some(IndexSource::Count { log_size }) => party == Party::Prover && log_size
                    == t.log_size && forall|i: int|
                    0 <= i < cols.len() ==> (#[trigger] cols[i]).field.name != "__row_id__"@,
                Some(IndexSource::CountOver(p)) => party == Party::Verifier && (exists|i: int|
                    0 <= i < cols.len() && !is_system_name((#[trigger] cols[i]).field.name)
                        && cols[i].poly == p) && forall|i: int|
                    0 <= i < cols.len() ==> (#[trigger] cols[i]).field.name != "__row_id__"@,
                None => party == Party::Verifier && forall|i: int|
                    0 <= i < cols.len() ==> is_system_name((#[trigger] cols[i]).field.name)
                        && cols[i].field.name != "__row_id__"@,
            }
        }),
{
    let cols = flat_cols(table_segments(t));
    lemma_name_index(cols, ROW_ID_COL_NAME@);
    lemma_indices_where(cols, is_data());
    let data = indices_where(cols, is_data());
    if name_index(cols, ROW_ID_COL_NAME@) is None && party == Party::Verifier {
        if data.len() > 0 {
            assert(is_data()(cols[data[0]]));
        } else {
            assert forall|i: int| 0 <= i < cols.len() implies is_system_name(
                (#[trigger] cols[i]).field.name,
            ) by {
                if !is_system_name(cols[i].field.name) {
                    lemma_index_found(cols, is_data(), i);
                }
            }
        }
    }
}

/// Whether two lists of annotations say the same of a column but for its keys.
pub open spec fn agree_but_for_keys(
    a: Map<Seq<char>, Seq<char>>,
    b: Map<Seq<char>, Seq<char>>,
) -> bool {
    forall|key: Seq<char>|
        key != "tt.pk"@ && key != "tt.fk.ref_table"@ && key != "tt.fk.ref_columns"@
            ==> #[trigger] a.contains_key(key) == b.contains_key(key) && (a.contains_key(key)
            ==> a[key] == b[key])
}

/// An output field stands for an input field exactly when the two have the
/// same name, type, nullability and annotations. Key constraints may have been
/// lost or gained on the way.
pub proof fn fields_stand_for_each_other_up_to_keys(actual: FieldView, expected: FieldView)
    ensures
        compatible(actual, expected) <==> {
            &&& actual.name == expected.name
            &&& actual.data_type == expected.data_type
            &&& actual.nullable == expected.nullable
            &&& agree_but_for_keys(actual.metadata, expected.metadata)
        },
{
    let a = without_constraints(actual.metadata);
    let b = without_constraints(expected.metadata);
    reveal_strlit("tt.qualifier");
    reveal_strlit("tt.pk");
    reveal_strlit("tt.fk.ref_table");
    reveal_strlit("tt.fk.ref_columns");
    assert("tt.qualifier"@.len() == 12);
    assert("tt.pk"@.len() == 5);
    assert("tt.fk.ref_table"@.len() == 15);
    assert("tt.fk.ref_columns"@.len() == 17);
    if agree_but_for_keys(actual.metadata, expected.metadata) {
        assert(actual.metadata.contains_key("tt.qualifier"@) == expected.metadata.contains_key(
            "tt.qualifier"@,
        ));
        assert forall|key: Seq<char>| a.contains_key(key) implies b.contains_key(key) && a[key]
            == b[key] by {
            assert(actual.metadata.contains_key(key));
        }
        assert forall|key: Seq<char>| b.contains_key(key) implies a.contains_key(key) by {
            assert(actual.metadata.contains_key(key) == expected.metadata.contains_key(key));
        }
        assert(a =~= b);
    }
    if a == b {
        assert forall|key: Seq<char>|
            key != "tt.pk"@ && key != "tt.fk.ref_table"@ && key
                != "tt.fk.ref_columns"@ implies #[trigger] actual.metadata.contains_key(key)
            == expected.metadata.contains_key(key) && (actual.metadata.contains_key(key)
            ==> actual.metadata[key] == expected.metadata[key]) by {
            assert(a.contains_key(key) == actual.metadata.contains_key(key));
            assert(b.contains_key(key) == expected.metadata.contains_key(key));
            if a.contains_key(key) {
                assert(a[key] == actual.metadata[key]);
                assert(b[key] == expected.metadata[key]);
            }
        }
    }
}

/// A column is appended exactly to a table with columns that are all over its
/// own rows, where the new one is over the same rows and of the same tracker,
/// and its name is neither taken nor a system name. It then stands behind all
/// others, which stay.
pub proof fn columns_are_appended_over_the_same_rows(t: TableView, f: FieldView, p: Poly)
    ensures
        appended(t, f, p) is Ok <==> {
            &&& t.cols.len() > 0
            &&& forall|i: int|
                0 <= i < t.cols.len() ==> (#[trigger] t.cols[i]).poly.log_size == t.log_size
            &&& p.tracker == t.cols[0].poly.tracker
            &&& p.log_size == t.log_size
            &&& forall|i: int| 0 <= i < t.cols.len() ==> (#[trigger] t.cols[i]).field.name != f.name
            &&& f.name != "__activator__"@
            &&& f.name != "__row_id__"@
        },
        appended(t, f, p) matches Ok(r) ==> {
            &&& r.log_size == t.log_size
            &&& r.cols.drop_last() == t.cols
            &&& r.cols.last() == (ColView { field: f, poly: p })
        },
{
    lemma_name_index(t.cols, f.name);
    if appended(t, f, p) is Ok {
        assert(appended(t, f, p)->Ok_0.cols.drop_last() =~= t.cols);
    }
}

proof fn lemma_only_data(cols: Seq<ColView>)
    requires
        indices_where(cols, is_data()).len() == 1,
    ensures
        ({
            let i = indices_where(cols, is_data())[0];
            &&& 0 <= i < cols.len()
            &&& cols[i].field.name != "__activator__"@
            &&& cols[i].field.name != "__row_id__"@
            &&& forall|j: int|
                0 <= j < cols.len() && j != i ==> (#[trigger] cols[j]).field.name
                    == "__activator__"@ || cols[j].field.name == "__row_id__"@
        }),
{
    let p = is_data();
    let found = indices_where(cols, p);
    lemma_indices_where(cols, p);
    assert(p(cols[found[0]]));
    assert forall|j: int| 0 <= j < cols.len() && j != found[0] implies (
    #[trigger] cols[j]).field.name == "__activator__"@ || cols[j].field.name == "__row_id__"@ by {
        if p(cols[j]) {
            lemma_index_found(cols, p, j);
        }
    }
}

/// A lookup table is folded with one challenge for each data column. One with
/// a single data column is that column, and no other kind is left unfolded.
pub proof fn folds_take_a_challenge_for_each_column(t: TableView, challenges: nat)
    requires
        t.cols.len() <= usize::MAX,
    ensures
        fold_of(t, challenges) is Ok <==> indices_where(t.cols, is_data()).len() == challenges
            && challenges > 0,
        fold_of(t, challenges) matches Ok(Fold::All) ==> challenges > 1,
        fold_of(t, challenges) matches Ok(Fold::Single(i)) ==> {
            &&& challenges == 1
            &&& i < t.cols.len()
            &&& t.cols[i as int].field.name != "__activator__"@
            &&& t.cols[i as int].field.name != "__row_id__"@
            &&& forall|j: int|
                0 <= j < t.cols.len() && j != i ==> (#[trigger] t.cols[j]).field.name
                    == "__activator__"@ || t.cols[j].field.name == "__row_id__"@
        },
{
    if indices_where(t.cols, is_data()).len() == 1 {
        lemma_only_data(t.cols);
    }
}

/// Source rows are read from the only data column of their table.
pub proof fn source_rows_are_the_only_data(t: GroupedTableView, label: JoinLabel, p: Poly)
    requires
        source_column(t, label) == Ok::<Poly, JoinError>(p),
    ensures
        one_row_domain(t),
        exists|i: int|
            0 <= i < flat_cols(table_segments(t)).len() && (#[trigger] flat_cols(
                table_segments(t),
            )[i]).poly == p && flat_cols(table_segments(t))[i].field.name != "__activator__"@
                && flat_cols(table_segments(t))[i].field.name != "__row_id__"@ && forall|j: int|
                0 <= j < flat_cols(table_segments(t)).len() && j != i ==> (#[trigger] flat_cols(
                    table_segments(t),
                )[j]).field.name == "__activator__"@ || flat_cols(table_segments(t))[j].field.name
                    == "__row_id__"@,
{
    let cols = flat_cols(table_segments(t));
    lemma_only_data(cols);
    let i = indices_where(cols, is_data())[0];
    assert(cols[i].poly == p);
}

proof fn lemma_first_mismatch(a: Seq<FieldView>, b: Seq<FieldView>, n: nat)
    requires
        n <= a.len(),
        n <= b.len(),
    ensures
        match first_mismatch(a, b, n) {
            Some(i) => 0 <= i < n && a[i] != b[i] && forall|j: int|
                0 <= j < i ==> #[trigger] a[j] == b[j],
            None => forall|j: int| 0 <= j < n ==> #[trigger] a[j] == b[j],
        },
    decreases n,
{
    if n > 0 {
        lemma_first_mismatch(a, b, (n - 1) as nat);
    }
}

/// A table is read flat only where its schema lists the fields of its flat
/// columns, in order, and no field occurs twice among them. The first field
/// out of order is the one that is reported.
pub proof fn flat_tables_follow_their_schema(t: GroupedTableView, label: JoinLabel)
    requires
        flat_cols(table_segments(t)).len() <= usize::MAX,
    ensures
        flat_order_fault(t, label) is None ==> flat_cols(table_segments(t)).len()
            == table_segments(t).len() && (t.schema matches Some(s) ==> s.fields == col_fields(
            flat_cols(table_segments(t)),
        )),
        flat_order_fault(t, label) matches Some(JoinError::FieldOrder { index, .. }) ==> {
            let flat = flat_cols(table_segments(t));
            &&& index < flat.len()
            &&& t.schema is Some
            &&& t.schema->0.fields[index as int] != flat[index as int].field
            &&& forall|j: int|
                0 <= j < index ==> (#[trigger] t.schema->0.fields[j]) == flat[j].field
        },
{
    let flat = flat_cols(table_segments(t));
    if t.schema is Some && t.schema->0.fields.len() == flat.len() {
        let fields = t.schema->0.fields;
        lemma_first_mismatch(fields, col_fields(flat), flat.len());
        if first_mismatch(fields, col_fields(flat), flat.len()) is None {
            assert(fields =~= col_fields(flat));
        } else {
            let i = first_mismatch(fields, col_fields(flat), flat.len())->0;
            assert(col_fields(flat)[i] == flat[i].field);
            assert forall|j: int| 0 <= j < i implies (#[trigger] fields[j]) == flat[j].field by {
                assert(col_fields(flat)[j] == flat[j].field);
            }
        }
    }
}

} // verus!
