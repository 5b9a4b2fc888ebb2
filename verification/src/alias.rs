//! Alias expressions: a column and its segments under another name.
use crate::df_schema::DfSchema;
use crate::hints::{shape_with_system, shape_with_system_columns};
use crate::plan::{dotted, ref_opt, Schema, SchemaView, TableReference};
use crate::schema::{fields_view, plain_field, DataType, Field, FieldView, TypeView};
use crate::seqs::{first_index, lemma_first_index, lemma_is_first};
use crate::table::{
    col_fields, cols_insert, cols_view, field_index, insert_col, is_segment_of, is_system_column,
    is_system_name, lemma_field_index, segment_of, table_metadata, ColView, SideView, Table,
    TableView, TrackedColumn,
};
use crate::text::{join_text, join_text3, same_text, without_prefix};
use vstd::prelude::*;
use vstd::string::*;

verus! {

/// Satisfied by the fields that are no system columns.
pub open spec fn is_payload() -> spec_fn(FieldView) -> bool {
    |f: FieldView| !is_system_name(f.name)
}

/// Whether a name is an auxiliary segment of the column `base`.
pub open spec fn auxiliary_of(name: Seq<char>, base: Seq<char>) -> bool {
    name != base && segment_of(name, base)
}

/// Whether all the fields behind `p` up to `i` are auxiliary segments of the
/// column at `p`.
pub open spec fn in_run(fields: Seq<FieldView>, p: int, i: int) -> bool {
    forall|k: int| p < k <= i ==> auxiliary_of((#[trigger] fields[k]).name, fields[p].name)
}

/// The field at `i` after aliasing. The first payload column takes the alias;
/// the run of its auxiliary segments right behind it takes the alias with
/// their suffixes; everything else stays. A segment of a column of the same
/// name further on is not of that run.
pub open spec fn aliased_field(fields: Seq<FieldView>, alias: Seq<char>, i: int) -> FieldView {
    match first_index(fields, is_payload()) {
        Some(p) => if i == p {
            FieldView { name: alias, ..fields[i] }
        } else if p < i && in_run(fields, p, i) {
            FieldView {
                name: alias + fields[i].name.skip(fields[p].name.len() as int),
                ..fields[i]
            }
        } else {
            fields[i]
        },
        None => fields[i],
    }
}

/// All the fields after aliasing.
pub open spec fn aliased_fields(fields: Seq<FieldView>, alias: Seq<char>) -> Seq<FieldView> {
    Seq::new(fields.len(), |i: int| aliased_field(fields, alias, i))
}

/// The first `n` columns after aliasing, each field once.
pub open spec fn aliased_cols(cols: Seq<ColView>, alias: Seq<char>, n: nat) -> Seq<ColView>
    decreases n,
{
    if n == 0 {
        Seq::empty()
    } else {
        cols_insert(
            aliased_cols(cols, alias, (n - 1) as nat),
            aliased_field(col_fields(cols), alias, n - 1),
            cols[n - 1].poly,
        )
    }
}

/// A table after aliasing.
pub open spec fn aliased_table(t: TableView, alias: Seq<char>) -> TableView {
    TableView {
        schema: Some(
            SchemaView {
                fields: aliased_fields(col_fields(t.cols), alias),
                metadata: table_metadata(t),
            },
        ),
        cols: aliased_cols(t.cols, alias, t.cols.len()),
        side_cols: Seq::empty(),
        log_size: t.log_size,
    }
}

/// The table of the aliased expression under the alias.
pub fn add_virtual_witness(table: &Table, alias: &str) -> (r: Table)
    ensures
        r@ == aliased_table(table@, alias@),
{
    let ghost fields = col_fields(table@.cols);
    let ghost p = is_payload();
    let mut cols: Vec<TrackedColumn> = Vec::new();
    let mut schema_fields: Vec<Field> = Vec::new();
    let mut primary: Option<String> = None;
    let mut in_aliased_run: bool = false;
    let ghost mut primary_index: int = 0;
    let mut i: usize = 0;
    assert(cols_view(cols@) =~= Seq::<ColView>::empty());
    while i < table.cols.len()
        invariant
            i <= table.cols@.len(),
            fields == col_fields(table@.cols),
            p == is_payload(),
            cols_view(cols@) == aliased_cols(table@.cols, alias@, i as nat),
            schema_fields@.len() == i,
            forall|j: int|
                0 <= j < i ==> (#[trigger] schema_fields@[j])@ == aliased_field(fields, alias@, j),
            match primary {
                Some(base) => 0 <= primary_index < i && first_index(fields, p) == Some(
                    primary_index,
                ) && base@ == fields[primary_index].name && in_aliased_run == in_run(
                    fields,
                    primary_index,
                    i - 1,
                ),
                None => forall|j: int| 0 <= j < i ==> !p(#[trigger] fields[j]),
            },
        decreases table.cols@.len() - i,
    {
        let field: &Field = &table.cols[i].field;
        assert(fields[i as int] == field@);
        let new_field: Field;
        match &primary {
            None => {
                if is_system_column(field.name.as_str()) {
                    proof {
                        lemma_first_index(fields, p);
                        match first_index(fields, p) {
                            Some(q) => {
                                assert(q > i);
                            },
                            None => {},
                        }
                    }
                    new_field = field.copy();
                } else {
                    proof {
                        lemma_is_first(fields, p, i as int);
                        primary_index = i as int;
                    }
                    primary = Some(field.name.clone());
                    in_aliased_run = true;
                    new_field = field.copy().with_name(alias);
                }
            },
            Some(base) => {
                let auxiliary: bool = !same_text(field.name.as_str(), base.as_str())
                    && is_segment_of(field.name.as_str(), base.as_str());
                proof {
                    assert(auxiliary == auxiliary_of(field@.name, base@));
                    if in_aliased_run && auxiliary {
                        assert forall|k: int| primary_index < k <= i implies auxiliary_of(
                            (#[trigger] fields[k]).name,
                            fields[primary_index].name,
                        ) by {
                            if k < i {
                                assert(in_run(fields, primary_index, i - 1));
                            }
                        }
                    } else if !in_aliased_run {
                        let k = choose|k: int|
                            primary_index < k <= i - 1 && !auxiliary_of(
                                (#[trigger] fields[k]).name,
                                fields[primary_index].name,
                            );
                        assert(!in_run(fields, primary_index, i as int));
                    }
                }
                if in_aliased_run && auxiliary {
                    let suffix: Option<String> = without_prefix(
                        field.name.as_str(),
                        base.as_str(),
                    );
                    proof {
                        assert(field@.name.take(base@.len() as int) =~= base@);
                    }
                    new_field = match suffix {
                        Some(text) => field.copy().with_name(
                            join_text(alias, text.as_str()).as_str(),
                        ),
                        None => field.copy(),
                    };
                } else {
                    assert(!in_run(fields, primary_index, i as int)) by {
                        if in_aliased_run {
                            assert(!auxiliary_of(fields[i as int].name, fields[primary_index].name));
                        }
                    }
                    in_aliased_run = false;
                    new_field = field.copy();
                }
            },
        }
        assert(new_field@ == aliased_field(fields, alias@, i as int));
        schema_fields.push(new_field.copy());
        insert_col(&mut cols, new_field, table.cols[i].poly);
        i = i + 1;
    }
    assert(fields_view(schema_fields@) =~= aliased_fields(fields, alias@));
    let r = Table {
        schema: Some(Schema { fields: schema_fields, metadata: table.metadata() }),
        cols,
        side_cols: Vec::new(),
        log_size: table.log_size,
    };
    assert(r@.side_cols =~= Seq::<SideView>::empty());
    r
}

/// Aliasing renames columns and nothing else: where the new fields are
/// distinct, every column keeps its place and its polynomial.
pub proof fn aliasing_keeps_polynomials(t: TableView, alias: Seq<char>)
    requires
        forall|i: int, j: int|
            0 <= i < j < t.cols.len() ==> #[trigger] aliased_field(col_fields(t.cols), alias, i)
                != #[trigger] aliased_field(col_fields(t.cols), alias, j),
    ensures
        aliased_table(t, alias).cols.len() == t.cols.len(),
        forall|i: int|
            0 <= i < t.cols.len() ==> (#[trigger] aliased_table(t, alias).cols[i]) == (ColView {
                field: aliased_field(col_fields(t.cols), alias, i),
                poly: t.cols[i].poly,
            }),
{
    lemma_aliased_prefix(t.cols, alias, t.cols.len());
}

proof fn lemma_aliased_prefix(cols: Seq<ColView>, alias: Seq<char>, n: nat)
    requires
        n <= cols.len(),
        forall|i: int, j: int|
            0 <= i < j < cols.len() ==> #[trigger] aliased_field(col_fields(cols), alias, i)
                != #[trigger] aliased_field(col_fields(cols), alias, j),
    ensures
        aliased_cols(cols, alias, n).len() == n,
        forall|i: int|
            0 <= i < n ==> (#[trigger] aliased_cols(cols, alias, n)[i]) == (ColView {
                field: aliased_field(col_fields(cols), alias, i),
                poly: cols[i].poly,
            }),
    decreases n,
{
    if n > 0 {
        lemma_aliased_prefix(cols, alias, (n - 1) as nat);
        let before = aliased_cols(cols, alias, (n - 1) as nat);
        let f = aliased_field(col_fields(cols), alias, n - 1);
        lemma_field_index(before, f);
        match field_index(before, f) {
            Some(k) => {
                assert(before[k].field == aliased_field(col_fields(cols), alias, k));
            },
            None => {},
        }
    }
}

/// The alias ends with the run of segments behind the aliased column: what
/// stands behind the first other column keeps its name, the segments of a
/// column of the same name among it.
pub proof fn columns_behind_the_run_keep_their_names(
    fields: Seq<FieldView>,
    alias: Seq<char>,
    p: int,
    q: int,
    i: int,
)
    requires
        first_index(fields, is_payload()) == Some(p),
        p < q <= i < fields.len(),
        !auxiliary_of(fields[q].name, fields[p].name),
    ensures
        aliased_field(fields, alias, i) == fields[i],
{
    assert(!in_run(fields, p, i));
}

/// The name of an alias in a schema: its qualifier and a dot in front where
/// it has one.
pub open spec fn alias_schema_name(relation: Option<Seq<Seq<char>>>, name: Seq<char>) -> Seq<char> {
    match relation {
        Some(r) => dotted(r) + "."@ + name,
        None => name,
    }
}

/// The fields of an alias expression's planned output where only shapes are
/// planned. An expression whose type is not known is planned as null.
pub fn output_fields(
    relation: &Option<TableReference>,
    name: &str,
    data_type: Option<DataType>,
    input: &DfSchema,
) -> (r: Vec<Field>)
    ensures
        fields_view(r@) == shape_with_system(
            input@,
            plain_field(
                alias_schema_name(ref_opt(*relation), name@),
                match data_type {
                    Some(t) => t@,
                    None => TypeView::Null,
                },
                true,
            ),
        ),
{
    let output_name: String = match relation {
        Some(t) => join_text3(t.to_text().as_str(), ".", name),
        None => name.to_owned(),
    };
    let output_type: DataType = match data_type {
        Some(t) => t,
        None => DataType::Null,
    };
    shape_with_system_columns(input, Field::new(output_name.as_str(), output_type, true))
}

/// An alias as text: the node of its expression, its name and the node it is
/// read over.
pub fn display(input_name: &str, alias: &str, scope_name: &str) -> (r: String)
    ensures
        r@ == "Alias\nInput: "@ + input_name@ + ", alias: "@ + alias@ + ", scope: "@ + scope_name@,
{
    let mut out: String = join_text3("Alias\nInput: ", input_name, ", alias: ");
    out.append(alias);
    out.append(", scope: ");
    out.append(scope_name);
    out
}

/// The first data column takes the alias and nothing else about it changes,
/// and the lengths of its strings right behind it take the alias with their
/// suffix. Every column that is neither keeps its field.
pub proof fn the_first_data_column_takes_the_alias(
    fields: Seq<FieldView>,
    alias: Seq<char>,
    p: int,
)
    requires
        0 <= p < fields.len(),
        fields[p].name != "__activator__"@,
        fields[p].name != "__row_id__"@,
        forall|j: int|
            0 <= j < p ==> (#[trigger] fields[j]).name == "__activator__"@ || fields[j].name
                == "__row_id__"@,
    ensures
        aliased_fields(fields, alias).len() == fields.len(),
        aliased_fields(fields, alias)[p] == (FieldView { name: alias, ..fields[p] }),
        p + 1 < fields.len() && fields[p + 1].name == fields[p].name + "__length"@
            ==> aliased_fields(fields, alias)[p + 1] == (FieldView {
            name: alias + "__length"@,
            ..fields[p + 1]
        }),
        forall|j: int|
            0 <= j < fields.len() && j != p && fields[j].name != fields[p].name + "__length"@
                ==> #[trigger] aliased_fields(fields, alias)[j] == fields[j],
{
    lemma_is_first(fields, is_payload(), p);
    reveal_strlit("__length");
    if p + 1 < fields.len() && fields[p + 1].name == fields[p].name + "__length"@ {
        assert(fields[p + 1].name.len() != fields[p].name.len());
        assert(in_run(fields, p, p + 1));
        assert(fields[p + 1].name.skip(fields[p].name.len() as int) =~= "__length"@);
    }
    assert forall|j: int|
        0 <= j < fields.len() && j != p && fields[j].name != fields[p].name
            + "__length"@ implies #[trigger] aliased_fields(fields, alias)[j] == fields[j] by {
        if p < j {
            assert(!auxiliary_of(fields[j].name, fields[p].name));
        }
    }
}

} // verus!
