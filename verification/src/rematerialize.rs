//! Rematerialization: the active rows of a table, moved to its front.
//!
//! On plans the operator is the identity. The output has the columns of its
//! input, its active rows are a permutation of the input's active rows, and
//! its activator is one on a prefix of the rows.
use crate::constraints::Constraints;
use crate::df_schema::{column_of, field_named, DfSchema, QFieldView};
use crate::field_bytes::{le_to_usize, le_value};
use crate::hints::{
    data_flags, data_hint, normalized_flags, row_id_sort, row_id_sort_exprs, HintDF,
};
use crate::limit::count_true;
use crate::nodes::{path_to, paths_tell_nodes_apart, steps, structural_path_to_node, Node};
use crate::plan::{
    exprs_view, sorts_view, Column, ColumnView, Expr, ExprView, LogicalPlan, Schema, SchemaView,
    SortExpr,
};
use crate::schema::{copy_fields, fields_view, Field};
use crate::seqs::{
    dot_free, first_index, join_all, joined, kept, kept_items_come_from_the_list, lemma_first_index,
    lemma_joined_injective, no_kept_item_is_lost, texts_view,
};
use crate::sort::{
    column_but_row_id, lemma_taken, output_exprs, strip_row_id, taken_from, without_row_id,
};
use crate::table::{
    activator_field, activator_field_view, cols_insert, copy_cols, field_index, insert_col,
    lemma_field_index, lemma_name_index, poly_named, Poly, SideView, Table, TableView,
    TrackedColumn, ACTIVATOR_COL_NAME, ROW_ID_COL_NAME,
};
use crate::text::{decimal, decimal_text, digit, join_text, join_text3, lemma_decimal_injective};
use vstd::prelude::*;
use vstd::string::*;

verus! {

/// What the weights of compacted tables are stored under, before the path of
/// the node.
pub const REMAT_CONTIG_S_PREFIX: &'static str = "remat_contig_s";

// ---------------------------------------------------------------------------
// The key of a node
// ---------------------------------------------------------------------------

/// The steps of a path in decimal.
pub open spec fn step_texts(path: Seq<int>) -> Seq<Seq<char>> {
    Seq::new(path.len(), |i: int| decimal(path[i] as nat))
}

/// The key that the weight of a compacted table is stored under.
pub open spec fn contig_key(path: Seq<int>) -> Seq<char> {
    REMAT_CONTIG_S_PREFIX@ + "_"@ + joined(step_texts(path), "."@)
}

/// The key that the weight of a node's compacted table is stored under; none
/// where the tree lacks the node.
pub fn remat_contig_key(root: &Node, id: u64) -> (r: Option<String>)
    ensures
        match r {
            Some(key) => path_to(*root, id) matches Some(p) && key@ == contig_key(p),
            None => path_to(*root, id) is None,
        },
{
    let path: Vec<usize> = match structural_path_to_node(root, id) {
        Some(p) => p,
        None => return None,
    };
    let mut parts: Vec<String> = Vec::new();
    let mut i: usize = 0;
    while i < path.len()
        invariant
            i <= path@.len(),
            parts@.len() == i,
            forall|j: int| 0 <= j < i ==> (#[trigger] parts@[j])@ == decimal(path@[j] as nat),
        decreases path@.len() - i,
    {
        parts.push(decimal_text(path[i]));
        i = i + 1;
    }
    assert(texts_view(parts@) =~= step_texts(steps(path@)));
    Some(join_text3(REMAT_CONTIG_S_PREFIX, "_", join_all(&parts, ".").as_str()))
}

proof fn lemma_decimal_dot_free(n: nat)
    ensures
        dot_free(decimal(n)),
    decreases n,
{
    if n >= 10 {
        lemma_decimal_dot_free(n / 10);
        assert forall|i: int| 0 <= i < decimal(n).len() implies decimal(n)[i] != '.' by {
            if i < decimal(n / 10).len() {
                assert(decimal(n)[i] == decimal(n / 10)[i]);
            } else {
                assert(decimal(n)[i] == digit(n % 10));
            }
        }
    } else {
        assert(decimal(n)[0] == digit(n));
    }
}

proof fn lemma_path_steps(root: Node, target: u64)
    requires
        path_to(root, target) is Some,
    ensures
        forall|i: int|
            0 <= i < path_to(root, target)->0.len() ==> (#[trigger] path_to(root, target)->0[i])
                >= 0,
    decreases root, 0nat,
{
    if root.id != target {
        lemma_path_below_steps(root.children@, target, root.children@.len());
    }
}

proof fn lemma_path_below_steps(list: Seq<Node>, target: u64, k: nat)
    requires
        k <= list.len(),
        crate::nodes::path_below(list, target, k) is Some,
    ensures
        forall|i: int|
            0 <= i < crate::nodes::path_below(list, target, k)->0.len() ==> (
            #[trigger] crate::nodes::path_below(list, target, k)->0[i]) >= 0,
    decreases list, k,
{
    if k > 0 {
        if crate::nodes::path_below(list, target, (k - 1) as nat) is Some {
            lemma_path_below_steps(list, target, (k - 1) as nat);
        } else {
            lemma_path_steps(list[k - 1], target);
        }
    }
}

/// The weights of different nodes are stored under different keys.
pub proof fn keys_tell_nodes_apart(root: Node, a: u64, b: u64)
    requires
        path_to(root, a) is Some,
        path_to(root, b) is Some,
        contig_key(path_to(root, a)->0) == contig_key(path_to(root, b)->0),
    ensures
        a == b,
{
    let p = path_to(root, a)->0;
    let q = path_to(root, b)->0;
    let head = REMAT_CONTIG_S_PREFIX@ + "_"@;
    let x = step_texts(p);
    let y = step_texts(q);
    assert(joined(x, "."@) =~= contig_key(p).skip(head.len() as int));
    assert(joined(y, "."@) =~= contig_key(q).skip(head.len() as int));
    assert forall|i: int| 0 <= i < x.len() implies dot_free(#[trigger] x[i]) by {
        lemma_decimal_dot_free(p[i] as nat);
    }
    assert forall|i: int| 0 <= i < y.len() implies dot_free(#[trigger] y[i]) by {
        lemma_decimal_dot_free(q[i] as nat);
    }
    lemma_joined_injective(x, y);
    lemma_path_steps(root, a);
    lemma_path_steps(root, b);
    assert(p.len() == x.len());
    assert(q.len() == y.len());
    assert forall|i: int| 0 <= i < p.len() implies p[i] == q[i] by {
        assert(x[i] == y[i]);
        lemma_decimal_injective(p[i] as nat, q[i] as nat);
    }
    assert(p =~= q);
    paths_tell_nodes_apart(root, a, b);
}

// ---------------------------------------------------------------------------
// The compacted table
// ---------------------------------------------------------------------------

/// The number of active rows of a table, from its activator: the weight of
/// the compacted one.
pub fn active_rows(active: &Vec<bool>) -> (r: usize)
    ensures
        r == count_true(active@),
{
    let mut count: usize = 0;
    let mut i: usize = 0;
    assert(active@.take(0) =~= Seq::<bool>::empty());
    while i < active.len()
        invariant
            i <= active@.len(),
            count <= i,
            count == count_true(active@.take(i as int)),
        decreases active@.len() - i,
    {
        proof {
            assert(active@.take(i + 1).drop_last() =~= active@.take(i as int));
            assert(active@.take(i + 1).last() == active@[i as int]);
        }
        if active[i] {
            count = count + 1;
        }
        i = i + 1;
    }
    assert(active@.take(active@.len() as int) =~= active@);
    count
}

/// The flags of rows that are active on a prefix.
pub open spec fn prefix_active(rows: nat, weight: nat) -> Seq<bool> {
    Seq::new(rows, |i: int| i < weight)
}

/// A compacted table has as many active rows as its weight says.
pub proof fn prefixes_have_their_weight(rows: nat, weight: nat)
    requires
        weight <= rows,
    ensures
        count_true(prefix_active(rows, weight)) == weight,
    decreases rows,
{
    let s = prefix_active(rows, weight);
    if rows > 0 {
        if weight == rows {
            prefixes_have_their_weight((rows - 1) as nat, (rows - 1) as nat);
            assert(s.drop_last() =~= prefix_active((rows - 1) as nat, (rows - 1) as nat));
        } else {
            prefixes_have_their_weight((rows - 1) as nat, weight);
            assert(s.drop_last() =~= prefix_active((rows - 1) as nat, weight));
        }
    }
}

/// An error of rematerialization.
#[derive(Debug, Clone, Copy, PartialEq, Eq, Structural)]
pub enum RematError {
    /// The weight of the compacted table is no machine word.
    WeightTooLarge,
    /// The operator was given expressions.
    Expressions,
    /// The operator was given none or several inputs.
    Inputs,
}

/// What an error is reported as.
pub open spec fn remat_message(e: RematError) -> Seq<char> {
    match e {
        RematError::WeightTooLarge => "rematerialize contig s does not fit into usize"@,
        RematError::Expressions => "Rematerialize does not accept expressions"@,
        RematError::Inputs => "Rematerialize expects a single input"@,
    }
}

impl RematError {
    /// What the error is reported as.
    pub fn message(&self) -> (r: String)
        ensures
            r@ == remat_message(*self),
    {
        match self {
            RematError::WeightTooLarge => "rematerialize contig s does not fit into usize".to_owned(),
            RematError::Expressions => "Rematerialize does not accept expressions".to_owned(),
            RematError::Inputs => "Rematerialize expects a single input".to_owned(),
        }
    }
}

/// The weight of the compacted table, from the bytes of the field element
/// that it was stored as.
pub fn read_weight(bytes: &Vec<u8>) -> (r: Result<usize, RematError>)
    ensures
        match r {
            Ok(n) => n == le_value(bytes@),
            Err(e) => e == RematError::WeightTooLarge && le_value(bytes@) > usize::MAX,
        },
{
    match le_to_usize(bytes) {
        Some(n) => Ok(n),
        None => Err(RematError::WeightTooLarge),
    }
}

/// The polynomial that says which rows of the input are active, where the
/// table can be compacted at all.
pub fn compaction_source(input: Option<&Table>) -> (r: Option<Poly>)
    ensures
        r == match input {
            Some(t) => poly_named(t@, ACTIVATOR_COL_NAME@),
            None => None,
        },
        r matches Some(p) ==> input matches Some(t) && exists|i: int|
            0 <= i < t@.cols.len() && (#[trigger] t@.cols[i]).field.name == "__activator__"@
                && t@.cols[i].poly == p,
{
    proof {
        if input is Some {
            lemma_name_index(input->0@.cols, ACTIVATOR_COL_NAME@);
        }
    }
    match input {
        Some(t) => t.activator(),
        None => None,
    }
}

/// A table with a prefix activator.
pub open spec fn compacted(t: TableView, prefix: Poly) -> TableView {
    TableView {
        schema: match t.schema {
            Some(s) => Some(
                SchemaView {
                    fields: s.fields.push(activator_field_view()),
                    metadata: s.metadata,
                },
            ),
            None => None,
        },
        cols: cols_insert(t.cols, activator_field_view(), prefix),
        side_cols: Seq::empty(),
        log_size: t.log_size,
    }
}

/// The table of a rematerialized node, with the polynomial that is one on
/// its active prefix.
pub fn add_virtual_witness(current: &Table, prefix: Poly) -> (r: Table)
    ensures
        r@ == compacted(current@, prefix),
{
    let mut cols: Vec<TrackedColumn> = copy_cols(&current.cols);
    insert_col(&mut cols, activator_field(), prefix);
    let schema: Option<Schema> = match &current.schema {
        Some(s) => {
            let mut fields: Vec<Field> = copy_fields(&s.fields);
            let ghost was = fields_view(fields@);
            fields.push(activator_field());
            assert(fields_view(fields@) =~= was.push(activator_field_view()));
            Some(Schema { fields, metadata: s.metadata.copy() })
        },
        None => None,
    };
    let r = Table { schema, cols, side_cols: Vec::new(), log_size: current.log_size };
    assert(r@.side_cols =~= Seq::<SideView>::empty());
    r
}

/// The tables that the permutation is shown of: input and output without
/// their row numbers, once both are there.
pub fn initialize_gadgets(input: Option<Table>, output: Option<Table>) -> (r: Option<
    (Table, Table),
>)
    ensures
        match (input, output) {
            (Some(a), Some(b)) => r matches Some((x, y)) && x@ == without_row_id(a@) && y@
                == without_row_id(b@),
            _ => r is None,
        },
        r matches Some((x, y)) ==> taken_from(x@, input->0@) && taken_from(y@, output->0@),
{
    proof {
        if input is Some {
            lemma_taken(input->0@);
        }
        if output is Some {
            lemma_taken(output->0@);
        }
    }
    match (input, output) {
        (Some(a), Some(b)) => Some((strip_row_id(a), strip_row_id(b))),
        _ => None,
    }
}

// ---------------------------------------------------------------------------
// Planning
// ---------------------------------------------------------------------------

/// The planned output over its schema: the system columns stay virtual.
pub fn output_hint(store: &Constraints, schema: DfSchema) -> (r: HintDF)
    ensures
        r.schema == schema,
        r.flags() == normalized_flags(store@, schema@, data_flags(schema@)),
{
    data_hint(store, schema)
}

/// How the rows of the output are numbered anew: by their place in the order
/// of a column, beside the columns that are kept.
#[derive(Debug)]
pub struct Renumbering {
    pub keep: Vec<Expr>,
    pub by: Column,
}

/// The steps from the input to the output of a rematerialization.
#[derive(Debug)]
pub struct OutputSteps {
    /// Only the active rows are kept.
    pub filter_active: bool,
    /// The order of the rows.
    pub sort: Vec<SortExpr>,
    /// How they are numbered anew, where they have numbers.
    pub renumber: Option<Renumbering>,
}

proof fn lemma_named_is_found(s: Seq<QFieldView>, name: Seq<char>)
    ensures
        first_index(s, field_named(name)) is Some <==> exists|i: int|
            0 <= i < s.len() && (#[trigger] s[i]).field.name == name,
{
    let p = field_named(name);
    lemma_first_index(s, p);
    match first_index(s, p) {
        Some(i) => {
            assert(s[i].field.name == name);
        },
        None => {
            assert forall|i: int| 0 <= i < s.len() implies (#[trigger] s[i]).field.name != name by {
                assert(!p(s[i]));
            }
        },
    }
}

/// The steps from the input to the output of a rematerialization.
pub fn build_output_steps(input: &DfSchema) -> (r: OutputSteps)
    ensures
        r.filter_active == (first_index(input@, field_named(ACTIVATOR_COL_NAME@)) is Some),
        sorts_view(r.sort@) == row_id_sort(input@),
        match first_index(input@, field_named(ROW_ID_COL_NAME@)) {
            Some(i) => r.renumber is Some && r.renumber->0.by@ == column_of(input@[i])
                && exprs_view(r.renumber->0.keep@) == kept(input@, column_but_row_id()),
            None => r.renumber is None,
        },
        r.filter_active <==> exists|i: int|
            0 <= i < input@.len() && (#[trigger] input@[i]).field.name == "__activator__"@,
        r.renumber is Some <==> exists|i: int|
            0 <= i < input@.len() && (#[trigger] input@[i]).field.name == "__row_id__"@,
        r.renumber matches Some(x) ==> x.by@.name == "__row_id__"@,
{
    proof {
        lemma_first_index(input@, field_named(ACTIVATOR_COL_NAME@));
        lemma_first_index(input@, field_named(ROW_ID_COL_NAME@));
        lemma_named_is_found(input@, ACTIVATOR_COL_NAME@);
        lemma_named_is_found(input@, ROW_ID_COL_NAME@);
    }
    let activator: Option<usize> = input.first_named(ACTIVATOR_COL_NAME);
    let row_id: Option<usize> = input.first_named(ROW_ID_COL_NAME);
    let renumber: Option<Renumbering> = match row_id {
        Some(i) => {
            assert(input@[i as int] == input.fields@[i as int]@);
            Some(Renumbering { keep: output_exprs(input), by: input.fields[i].column() })
        },
        None => None,
    };
    OutputSteps {
        filter_active: activator.is_some(),
        sort: row_id_sort_exprs(input),
        renumber,
    }
}

/// The operator on plans, over its input.
#[derive(Debug)]
pub struct RematerializeLogicalNode {
    input: LogicalPlan,
}

impl RematerializeLogicalNode {
    /// The input of the operator.
    pub closed spec fn input_plan(&self) -> LogicalPlan {
        self.input
    }

    /// The operator over a plan.
    pub fn new(input: LogicalPlan) -> (r: RematerializeLogicalNode)
        ensures
            r.input_plan() == input,
    {
        RematerializeLogicalNode { input }
    }

    /// The plan that the operator is over.
    pub fn input(&self) -> (r: &LogicalPlan)
        ensures
            *r == self.input_plan(),
    {
        &self.input
    }

    /// The columns of the input that given columns of the output need: the
    /// same ones, since the operator passes every column on.
    pub fn necessary_children_exprs(&self, output_columns: &Vec<usize>) -> (r: Vec<Vec<usize>>)
        ensures
            r@.len() == 1,
            r@[0]@ == output_columns@,
    {
        let mut columns: Vec<usize> = Vec::new();
        let mut i: usize = 0;
        while i < output_columns.len()
            invariant
                i <= output_columns@.len(),
                columns@ == output_columns@.take(i as int),
            decreases output_columns@.len() - i,
        {
            columns.push(output_columns[i]);
            assert(columns@ =~= output_columns@.take(i + 1));
            i = i + 1;
        }
        assert(columns@ =~= output_columns@);
        let mut out: Vec<Vec<usize>> = Vec::new();
        out.push(columns);
        out
    }

    /// The operator over another input. It takes no expressions and one
    /// input.
    pub fn with_exprs_and_inputs(exprs: &Vec<Expr>, inputs: Vec<LogicalPlan>) -> (r: Result<
        RematerializeLogicalNode,
        RematError,
    >)
        ensures
            match r {
                Ok(n) => exprs@.len() == 0 && inputs@.len() == 1 && n.input_plan() == inputs@[0],
                Err(RematError::Expressions) => exprs@.len() > 0,
                Err(RematError::Inputs) => exprs@.len() == 0 && inputs@.len() != 1,
                Err(RematError::WeightTooLarge) => false,
            },
    {
        if exprs.len() > 0 {
            return Err(RematError::Expressions);
        }
        if inputs.len() != 1 {
            return Err(RematError::Inputs);
        }
        let mut inputs: Vec<LogicalPlan> = inputs;
        match inputs.pop() {
            Some(input) => Ok(RematerializeLogicalNode { input }),
            None => Err(RematError::Inputs),
        }
    }
}

/// A plan under the operator.
pub fn wrap_logical_plan(input: LogicalPlan) -> (r: LogicalPlan)
    ensures
        r == (LogicalPlan::Rematerialize { input: Box::new(input) }),
{
    LogicalPlan::Rematerialize { input: Box::new(input) }
}

/// The text of the operator, from the name of its input.
pub fn display(input: &str) -> (r: String)
    ensures
        r@ == "Rematerialize\nInput: "@ + input@,
{
    join_text("Rematerialize\nInput: ", input)
}

/// A compacted table is over the rows of the table that it is made of. Its
/// activator is the prefix, and every other column is the table's own, in its
/// place.
pub proof fn compacted_tables_are_active_on_the_prefix(t: TableView, prefix: Poly)
    ensures
        compacted(t, prefix).log_size == t.log_size,
        exists|k: int|
            0 <= k < compacted(t, prefix).cols.len() && (#[trigger] compacted(
                t,
                prefix,
            ).cols[k]).field.name == "__activator__"@ && compacted(t, prefix).cols[k].poly == prefix,
        forall|i: int|
            0 <= i < t.cols.len() && (#[trigger] t.cols[i]).field.name != "__activator__"@ ==> i
                < compacted(t, prefix).cols.len() && compacted(t, prefix).cols[i] == t.cols[i],
        forall|k: int|
            0 <= k < compacted(t, prefix).cols.len() && (#[trigger] compacted(
                t,
                prefix,
            ).cols[k]).field.name != "__activator__"@ ==> t.cols.contains(
                compacted(t, prefix).cols[k],
            ),
{
    let f = activator_field_view();
    let r = compacted(t, prefix).cols;
    lemma_field_index(t.cols, f);
    match field_index(t.cols, f) {
        Some(k) => {
            assert(r[k].poly == prefix);
        },
        None => {
            assert(r[t.cols.len() as int].poly == prefix);
        },
    }
    assert forall|k: int|
        0 <= k < r.len() && (#[trigger] r[k]).field.name != "__activator__"@ implies t.cols.contains(
        r[k],
    ) by {
        assert(r[k] == t.cols[k]);
    }
}

/// Rows that are numbered anew keep every other column, in order, and lose
/// the old number.
pub proof fn numbered_rows_keep_the_other_columns(s: Seq<QFieldView>, i: int)
    requires
        0 <= i < s.len(),
    ensures
        s[i].field.name != "__row_id__"@ ==> kept(s, column_but_row_id()).contains(
            ExprView::Column(ColumnView { relation: s[i].qualifier, name: s[i].field.name }),
        ),
        forall|k: int|
            0 <= k < kept(s, column_but_row_id()).len() ==> ((#[trigger] kept(
                s,
                column_but_row_id(),
            )[k]) matches ExprView::Column(c) && c.name != "__row_id__"@),
{
    let f = column_but_row_id();
    if s[i].field.name != "__row_id__"@ {
        let k = no_kept_item_is_lost(s, f, i);
        assert(kept(s, f)[k] == ExprView::Column(
            ColumnView { relation: s[i].qualifier, name: s[i].field.name },
        ));
    }
    assert forall|k: int| 0 <= k < kept(s, f).len() implies ((#[trigger] kept(s, f)[k]) matches
        ExprView::Column(c) && c.name != "__row_id__"@) by {
        let j = kept_items_come_from_the_list(s, f, k);
    }
}

} // verus!
