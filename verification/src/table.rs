//! Tables of tracked polynomials.
//!
//! A table pairs fields with polynomials of one proof tracker. Polynomials
//! are held by what the planning logic reads of them: their identifier, the
//! tracker they belong to and the size of their domain.
use crate::metadata::Metadata;
use crate::plan::{Schema, SchemaView};
use crate::schema::{fields_view, plain_field, text_opt, DataType, Field, FieldView, TypeView};
use crate::seqs::ints;
use crate::text::{join_text, same_text};
use vstd::prelude::*;

verus! {

/// Name of the column that says which rows are active.
pub const ACTIVATOR_COL_NAME: &'static str = "__activator__";

/// Name of the column that numbers the rows.
pub const ROW_ID_COL_NAME: &'static str = "__row_id__";

/// Annotation that holds the qualifier of a field.
pub const QUALIFIER_METADATA_KEY: &'static str = "tt.qualifier";

/// Suffix of the segment that holds the lengths of a string column.
pub const STRING_LENGTH_SUFFIX: &'static str = "__length";

/// Whether a name is that of a system column.
pub open spec fn is_system_name(name: Seq<char>) -> bool {
    name == ACTIVATOR_COL_NAME@ || name == ROW_ID_COL_NAME@
}

/// Whether a column is maintained by the proof system rather than the query.
pub fn is_system_column(name: &str) -> (r: bool)
    ensures
        r == is_system_name(name@),
{
    same_text(name, ACTIVATOR_COL_NAME) || same_text(name, ROW_ID_COL_NAME)
}

/// The field of the activator column.
pub open spec fn activator_field_view() -> FieldView {
    plain_field(ACTIVATOR_COL_NAME@, TypeView::Boolean, false)
}

/// The field of the row-number column.
pub open spec fn row_id_field_view() -> FieldView {
    plain_field(ROW_ID_COL_NAME@, TypeView::Int64, false)
}

/// The field of the activator column.
pub fn activator_field() -> (r: Field)
    ensures
        r@ == activator_field_view(),
{
    Field::new(ACTIVATOR_COL_NAME, DataType::Boolean, false)
}

/// The field of the row-number column.
pub fn row_id_field() -> (r: Field)
    ensures
        r@ == row_id_field_view(),
{
    Field::new(ROW_ID_COL_NAME, DataType::Int64, false)
}

/// The two parties of a proof.
#[derive(Debug, Clone, Copy, PartialEq, Eq, Structural)]
pub enum Party {
    Prover,
    Verifier,
}

/// What a polynomial is to its tracker.
#[derive(Debug, Clone, Copy, PartialEq, Eq, Structural)]
pub enum PolyId {
    /// A polynomial that the tracker knows by this number.
    Numbered(usize),
    /// The constant one, which needs no commitment.
    One,
}

/// A tracked polynomial.
#[derive(Debug, Clone, Copy, PartialEq, Eq, Structural)]
pub struct Poly {
    pub id: PolyId,
    /// The tracker that it belongs to.
    pub tracker: usize,
    /// Logarithm of the size of its domain.
    pub log_size: usize,
}

/// A field and its polynomial.
#[derive(Debug)]
pub struct TrackedColumn {
    pub field: Field,
    pub poly: Poly,
}

/// Mathematical counterpart of [`TrackedColumn`].
#[verifier::ext_equal]
pub struct ColView {
    pub field: FieldView,
    pub poly: Poly,
}

impl TrackedColumn {
    /// The column as a mathematical value.
    pub open spec fn view(&self) -> ColView {
        ColView { field: self.field@, poly: self.poly }
    }

    /// An equal column.
    pub fn copy(&self) -> (r: TrackedColumn)
        ensures
            r@ == self@,
    {
        TrackedColumn { field: self.field.copy(), poly: self.poly }
    }
}

/// The columns of a list as mathematical values.
pub open spec fn cols_view(s: Seq<TrackedColumn>) -> Seq<ColView> {
    Seq::new(s.len(), |i: int| s[i]@)
}

/// The fields of a list of columns.
pub open spec fn col_fields(s: Seq<ColView>) -> Seq<FieldView> {
    Seq::new(s.len(), |i: int| s[i].field)
}

/// Whether no two columns have the same field.
pub open spec fn distinct_fields(s: Seq<ColView>) -> bool {
    forall|i: int, j: int| 0 <= i < j < s.len() ==> (#[trigger] s[i]).field != (#[trigger] s[j]).field
}

/// Position of the first column with the given field.
pub open spec fn field_index(s: Seq<ColView>, f: FieldView) -> Option<int>
    decreases s.len(),
{
    if s.len() == 0 {
        None
    } else {
        match field_index(s.drop_last(), f) {
            Some(i) => Some(i),
            None => if s.last().field == f {
                Some(s.len() - 1)
            } else {
                None
            },
        }
    }
}

/// The columns with `p` under `f`: in place of the polynomial that the field
/// had, or behind all others.
pub open spec fn cols_insert(s: Seq<ColView>, f: FieldView, p: Poly) -> Seq<ColView> {
    match field_index(s, f) {
        Some(i) => s.update(i, ColView { field: f, poly: p }),
        None => s.push(ColView { field: f, poly: p }),
    }
}

/// What `field_index` finds.
pub proof fn lemma_field_index(s: Seq<ColView>, f: FieldView)
    ensures
        match field_index(s, f) {
            Some(i) => 0 <= i < s.len() && s[i].field == f && forall|j: int|
                0 <= j < i ==> (#[trigger] s[j]).field != f,
            None => forall|j: int| 0 <= j < s.len() ==> (#[trigger] s[j]).field != f,
        },
    decreases s.len(),
{
    if s.len() > 0 {
        let t = s.drop_last();
        lemma_field_index(t, f);
        match field_index(t, f) {
            Some(i) => {
                assert(s[i] == t[i]);
                assert forall|j: int| 0 <= j < i implies (#[trigger] s[j]).field != f by {
                    assert(t[j].field != f);
                }
            },
            None => {
                assert forall|j: int| 0 <= j < s.len() - 1 implies (#[trigger] s[j]).field != f by {
                    assert(t[j].field != f);
                }
            },
        }
    }
}

/// Inserting keeps the fields distinct.
pub proof fn inserting_keeps_fields_distinct(s: Seq<ColView>, f: FieldView, p: Poly)
    requires
        distinct_fields(s),
    ensures
        distinct_fields(cols_insert(s, f, p)),
{
    lemma_field_index(s, f);
    let t = cols_insert(s, f, p);
    assert forall|i: int, j: int| 0 <= i < j < t.len() implies (#[trigger] t[i]).field != (
    #[trigger] t[j]).field by {
        if j < s.len() {
            assert(s[i].field != s[j].field);
        } else {
            assert(s[i].field != f);
        }
    }
}

/// Position of the first column with the given field.
pub fn find_field(cols: &Vec<TrackedColumn>, field: &Field) -> (r: Option<usize>)
    ensures
        match r {
            Some(i) => field_index(cols_view(cols@), field@) == Some(i as int) && i < cols@.len(),
            None => field_index(cols_view(cols@), field@) is None,
        },
{
    let ghost views = cols_view(cols@);
    let mut i: usize = 0;
    proof {
        lemma_field_index(views, field@);
    }
    while i < cols.len()
        invariant
            i <= cols@.len(),
            views == cols_view(cols@),
            forall|j: int| 0 <= j < i ==> (#[trigger] views[j]).field != field@,
            match field_index(views, field@) {
                Some(k) => 0 <= k < views.len() && views[k].field == field@ && forall|j: int|
                    0 <= j < k ==> (#[trigger] views[j]).field != field@,
                None => forall|j: int| 0 <= j < views.len() ==> (#[trigger] views[j]).field
                    != field@,
            },
        decreases cols@.len() - i,
    {
        assert(views[i as int] == cols@[i as int]@);
        if cols[i].field.same(field) {
            return Some(i);
        }
        i = i + 1;
    }
    None
}

/// Puts `poly` under `field`.
pub fn insert_col(cols: &mut Vec<TrackedColumn>, field: Field, poly: Poly)
    ensures
        cols_view(final(cols)@) == cols_insert(cols_view(old(cols)@), field@, poly),
{
    let ghost before = cols_view(cols@);
    match find_field(cols, &field) {
        Some(i) => {
            let col = TrackedColumn { field, poly };
            cols.set(i, col);
            assert(cols_view(cols@) =~= before.update(i as int, col@));
        },
        None => {
            let col = TrackedColumn { field, poly };
            cols.push(col);
            assert(cols_view(cols@) =~= before.push(col@));
        },
    }
}

/// Copies of the columns, in order.
pub fn copy_cols(cols: &Vec<TrackedColumn>) -> (r: Vec<TrackedColumn>)
    ensures
        cols_view(r@) == cols_view(cols@),
{
    let mut out: Vec<TrackedColumn> = Vec::new();
    let mut i: usize = 0;
    while i < cols.len()
        invariant
            i <= cols@.len(),
            out@.len() == i,
            forall|j: int| 0 <= j < i ==> (#[trigger] out@[j])@ == cols@[j]@,
        decreases cols@.len() - i,
    {
        out.push(cols[i].copy());
        i = i + 1;
    }
    assert(cols_view(out@) =~= cols_view(cols@));
    out
}

/// Copies of the fields of the columns, in order.
pub fn fields_of(cols: &Vec<TrackedColumn>) -> (r: Vec<Field>)
    ensures
        fields_view(r@) == col_fields(cols_view(cols@)),
{
    let mut out: Vec<Field> = Vec::new();
    let mut i: usize = 0;
    while i < cols.len()
        invariant
            i <= cols@.len(),
            out@.len() == i,
            forall|j: int| 0 <= j < i ==> (#[trigger] out@[j])@ == cols@[j].field@,
        decreases cols@.len() - i,
    {
        out.push(cols[i].field.copy());
        i = i + 1;
    }
    assert(fields_view(out@) =~= col_fields(cols_view(cols@)));
    out
}

/// Position of the first column with the given name.
pub open spec fn name_index(s: Seq<ColView>, name: Seq<char>) -> Option<int>
    decreases s.len(),
{
    if s.len() == 0 {
        None
    } else {
        match name_index(s.drop_last(), name) {
            Some(i) => Some(i),
            None => if s.last().field.name == name {
                Some(s.len() - 1)
            } else {
                None
            },
        }
    }
}

/// What `name_index` finds.
pub proof fn lemma_name_index(s: Seq<ColView>, name: Seq<char>)
    ensures
        match name_index(s, name) {
            Some(i) => 0 <= i < s.len() && s[i].field.name == name && forall|j: int|
                0 <= j < i ==> (#[trigger] s[j]).field.name != name,
            None => forall|j: int| 0 <= j < s.len() ==> (#[trigger] s[j]).field.name != name,
        },
    decreases s.len(),
{
    if s.len() > 0 {
        let t = s.drop_last();
        lemma_name_index(t, name);
        match name_index(t, name) {
            Some(i) => {
                assert(s[i] == t[i]);
                assert forall|j: int| 0 <= j < i implies (#[trigger] s[j]).field.name != name by {
                    assert(t[j].field.name != name);
                }
            },
            None => {
                assert forall|j: int| 0 <= j < s.len() - 1 implies (#[trigger] s[j]).field.name
                    != name by {
                    assert(t[j].field.name != name);
                }
            },
        }
    }
}

/// Position of the first column with the given name.
pub fn find_name(cols: &Vec<TrackedColumn>, name: &str) -> (r: Option<usize>)
    ensures
        match r {
            Some(i) => name_index(cols_view(cols@), name@) == Some(i as int) && i < cols@.len()
                && cols@[i as int].field.name@ == name@,
            None => name_index(cols_view(cols@), name@) is None,
        },
{
    let ghost views = cols_view(cols@);
    let mut i: usize = 0;
    proof {
        lemma_name_index(views, name@);
    }
    while i < cols.len()
        invariant
            i <= cols@.len(),
            views == cols_view(cols@),
            forall|j: int| 0 <= j < i ==> (#[trigger] views[j]).field.name != name@,
            match name_index(views, name@) {
                Some(k) => 0 <= k < views.len() && views[k].field.name == name@ && forall|j: int|
                    0 <= j < k ==> (#[trigger] views[j]).field.name != name@,
                None => forall|j: int| 0 <= j < views.len() ==> (#[trigger] views[j]).field.name
                    != name@,
            },
        decreases cols@.len() - i,
    {
        assert(views[i as int] == cols@[i as int]@);
        if same_text(cols[i].field.name.as_str(), name) {
            return Some(i);
        }
        i = i + 1;
    }
    None
}

/// A column over a domain of its own, beside the rows of a table.
#[derive(Debug)]
pub struct SideColumn {
    pub field: Field,
    pub data: Poly,
    pub activator: Option<Poly>,
}

/// Mathematical counterpart of [`SideColumn`].
#[verifier::ext_equal]
pub struct SideView {
    pub name: Seq<char>,
    pub data: Poly,
    pub activator: Option<Poly>,
}

impl SideColumn {
    /// The side column as a mathematical value.
    pub open spec fn view(&self) -> SideView {
        SideView { name: self.field@.name, data: self.data, activator: self.activator }
    }
}

/// The side columns of a list as mathematical values.
pub open spec fn sides_view(s: Seq<SideColumn>) -> Seq<SideView> {
    Seq::new(s.len(), |i: int| s[i]@)
}

/// A table of tracked columns over one domain.
#[derive(Debug)]
pub struct Table {
    pub schema: Option<Schema>,
    pub cols: Vec<TrackedColumn>,
    pub side_cols: Vec<SideColumn>,
    pub log_size: usize,
}

/// Mathematical counterpart of [`Table`].
#[verifier::ext_equal]
pub struct TableView {
    pub schema: Option<SchemaView>,
    pub cols: Seq<ColView>,
    pub side_cols: Seq<SideView>,
    pub log_size: usize,
}

/// A schema of the given fields without annotations.
pub open spec fn plain_schema(fields: Seq<FieldView>) -> SchemaView {
    SchemaView { fields, metadata: Map::empty() }
}

/// A table whose schema lists the fields of its columns.
pub open spec fn table_of(cols: Seq<ColView>, log_size: usize) -> TableView {
    TableView {
        schema: Some(plain_schema(col_fields(cols))),
        cols,
        side_cols: Seq::empty(),
        log_size,
    }
}

/// The polynomial of the first column with the given name.
pub open spec fn poly_named(t: TableView, name: Seq<char>) -> Option<Poly> {
    match name_index(t.cols, name) {
        Some(i) => Some(t.cols[i].poly),
        None => None,
    }
}

impl Table {
    /// The table as a mathematical value.
    pub open spec fn view(&self) -> TableView {
        TableView {
            schema: match self.schema {
                Some(s) => Some(s@),
                None => None,
            },
            cols: cols_view(self.cols@),
            side_cols: sides_view(self.side_cols@),
            log_size: self.log_size,
        }
    }

    /// A table whose schema lists the fields of its columns.
    pub fn of(cols: Vec<TrackedColumn>, log_size: usize) -> (r: Table)
        ensures
            r@ == table_of(cols_view(cols@), log_size),
    {
        let fields: Vec<Field> = fields_of(&cols);
        let r = Table {
            schema: Some(Schema { fields, metadata: Metadata::new() }),
            cols,
            side_cols: Vec::new(),
            log_size,
        };
        assert(r@.side_cols =~= Seq::<SideView>::empty());
        r
    }

    /// The polynomial of the first column with the given name.
    pub fn poly_by_name(&self, name: &str) -> (r: Option<Poly>)
        ensures
            r == poly_named(self@, name@),
    {
        match find_name(&self.cols, name) {
            Some(i) => Some(self.cols[i].poly),
            None => None,
        }
    }

    /// The polynomial that says which rows are active.
    pub fn activator(&self) -> (r: Option<Poly>)
        ensures
            r == poly_named(self@, ACTIVATOR_COL_NAME@),
    {
        self.poly_by_name(ACTIVATOR_COL_NAME)
    }
}

// ---------------------------------------------------------------------------
// Qualifiers and segments
// ---------------------------------------------------------------------------

/// The qualifier that a field is annotated with.
pub open spec fn qualifier_of(f: FieldView) -> Option<Seq<char>> {
    if f.metadata.contains_key(QUALIFIER_METADATA_KEY@) {
        Some(f.metadata[QUALIFIER_METADATA_KEY@])
    } else {
        None
    }
}

/// The qualifier that a field is annotated with.
pub fn field_qualifier(field: &Field) -> (r: Option<String>)
    ensures
        text_opt(r) == qualifier_of(field@),
{
    match field.metadata.get(QUALIFIER_METADATA_KEY) {
        Some(q) => Some(q.clone()),
        None => None,
    }
}

/// Whether `name` is a segment of the column `base`: its primary segment,
/// which has the column's own name, or the lengths of its strings. The names
/// are those that the encoder of tables gives to the segments of a column. The
/// encoder is no part of this crate, so that it gives no other names is taken
/// as it is, not proved.
pub open spec fn segment_of(name: Seq<char>, base: Seq<char>) -> bool {
    name == base || name == base + STRING_LENGTH_SUFFIX@
}

/// Whether `name` is a segment of the column `base`.
pub fn is_segment_of(name: &str, base: &str) -> (r: bool)
    ensures
        r == segment_of(name@, base@),
{
    same_text(name, base) || same_text(name, join_text(base, STRING_LENGTH_SUFFIX).as_str())
}

// ---------------------------------------------------------------------------
// Tables from columns of a table
// ---------------------------------------------------------------------------

/// A table whose schema lists the fields of its columns, with annotations.
pub open spec fn table_with(
    cols: Seq<ColView>,
    metadata: Map<Seq<char>, Seq<char>>,
    log_size: usize,
) -> TableView {
    TableView {
        schema: Some(SchemaView { fields: col_fields(cols), metadata }),
        cols,
        side_cols: Seq::empty(),
        log_size,
    }
}

/// The annotations of a table's schema; none where it has no schema.
pub open spec fn table_metadata(t: TableView) -> Map<Seq<char>, Seq<char>> {
    match t.schema {
        Some(s) => s.metadata,
        None => Map::empty(),
    }
}

/// The columns at the given positions, in the order of the positions.
pub open spec fn cols_at(cols: Seq<ColView>, indices: Seq<int>) -> Seq<ColView> {
    Seq::new(indices.len(), |i: int| cols[indices[i]])
}

/// The columns at the given positions, each field once.
pub open spec fn selected_cols(cols: Seq<ColView>, indices: Seq<int>) -> Seq<ColView>
    decreases indices.len(),
{
    if indices.len() == 0 {
        Seq::empty()
    } else {
        let c = cols[indices.last()];
        cols_insert(selected_cols(cols, indices.drop_last()), c.field, c.poly)
    }
}

/// The columns at the given positions with the system columns among the
/// first `n` columns.
pub open spec fn with_system_cols(cols: Seq<ColView>, indices: Seq<int>, n: nat) -> Seq<ColView>
    decreases n,
{
    if n == 0 {
        selected_cols(cols, indices)
    } else {
        let before = with_system_cols(cols, indices, (n - 1) as nat);
        let c = cols[n - 1];
        if is_system_name(c.field.name) {
            cols_insert(before, c.field, c.poly)
        } else {
            before
        }
    }
}

/// The part of a table that holds the columns at the given positions and the
/// system columns.
pub open spec fn subtable(t: TableView, indices: Seq<int>) -> TableView {
    table_with(
        with_system_cols(t.cols, indices, t.cols.len()),
        table_metadata(t),
        t.log_size,
    )
}

/// Whether all indices are within a table.
pub open spec fn within(indices: Seq<usize>, n: nat) -> bool {
    forall|i: int| 0 <= i < indices.len() ==> (#[trigger] indices[i]) < n
}

impl Table {
    /// A table whose schema lists the fields of its columns, with
    /// annotations.
    pub fn with_metadata(cols: Vec<TrackedColumn>, metadata: Metadata, log_size: usize) -> (r: Table)
        ensures
            r@ == table_with(cols_view(cols@), metadata@, log_size),
    {
        let fields: Vec<Field> = fields_of(&cols);
        let r = Table {
            schema: Some(Schema { fields, metadata }),
            cols,
            side_cols: Vec::new(),
            log_size,
        };
        assert(r@.side_cols =~= Seq::<SideView>::empty());
        r
    }

    /// A copy of the annotations of the schema.
    pub fn metadata(&self) -> (r: Metadata)
        ensures
            r@ == table_metadata(self@),
    {
        match &self.schema {
            Some(s) => s.metadata.copy(),
            None => Metadata::new(),
        }
    }

    /// The part of the table that holds the columns at the given positions
    /// and the system columns.
    pub fn tracked_subtable_by_indices(&self, indices: &Vec<usize>) -> (r: Table)
        requires
            within(indices@, self.cols@.len()),
        ensures
            r@ == subtable(self@, ints(indices@)),
    {
        let ghost all = cols_view(self.cols@);
        let ghost positions = ints(indices@);
        let mut out: Vec<TrackedColumn> = Vec::new();
        let mut i: usize = 0;
        assert(cols_view(out@) =~= selected_cols(all, positions.take(0)));
        while i < indices.len()
            invariant
                i <= indices@.len(),
                within(indices@, self.cols@.len()),
                all == cols_view(self.cols@),
                positions == ints(indices@),
                cols_view(out@) == selected_cols(all, positions.take(i as int)),
            decreases indices@.len() - i,
        {
            proof {
                assert(positions.take(i + 1).drop_last() =~= positions.take(i as int));
                assert(positions.take(i + 1).last() == indices@[i as int] as int);
            }
            let c: &TrackedColumn = &self.cols[indices[i]];
            insert_col(&mut out, c.field.copy(), c.poly);
            i = i + 1;
        }
        assert(positions.take(positions.len() as int) =~= positions);
        let mut k: usize = 0;
        while k < self.cols.len()
            invariant
                k <= self.cols@.len(),
                all == cols_view(self.cols@),
                cols_view(out@) == with_system_cols(all, positions, k as nat),
            decreases self.cols@.len() - k,
        {
            let c: &TrackedColumn = &self.cols[k];
            if is_system_column(c.field.name.as_str()) {
                insert_col(&mut out, c.field.copy(), c.poly);
            }
            k = k + 1;
        }
        Table::with_metadata(out, self.metadata(), self.log_size)
    }
}

/// Inserting a column of a table whose fields are distinct: it stays where
/// it is, or comes behind all others.
proof fn lemma_insert_own(cols: Seq<ColView>, s: Seq<ColView>, k: int)
    requires
        distinct_fields(cols),
        0 <= k < cols.len(),
        forall|i: int| 0 <= i < s.len() ==> cols.contains(#[trigger] s[i]),
    ensures
        cols_insert(s, cols[k].field, cols[k].poly) == s || cols_insert(
            s,
            cols[k].field,
            cols[k].poly,
        ) == s.push(cols[k]),
        !s.contains(cols[k]) ==> cols_insert(s, cols[k].field, cols[k].poly) == s.push(cols[k]),
{
    lemma_field_index(s, cols[k].field);
    match field_index(s, cols[k].field) {
        Some(i) => {
            let j = choose|j: int| 0 <= j < cols.len() && cols[j] == s[i];
            assert(j == k) by {
                if j < k {
                    assert(cols[j].field != cols[k].field);
                } else if k < j {
                    assert(cols[k].field != cols[j].field);
                }
            }
            assert(s.update(i, cols[k]) =~= s);
            assert(s.contains(cols[k]));
        },
        None => {},
    }
}

proof fn lemma_selection_is_listing(cols: Seq<ColView>, indices: Seq<int>)
    requires
        distinct_fields(cols),
        indices.no_duplicates(),
        forall|i: int| 0 <= i < indices.len() ==> 0 <= #[trigger] indices[i] < cols.len(),
    ensures
        selected_cols(cols, indices) == cols_at(cols, indices),
    decreases indices.len(),
{
    if indices.len() > 0 {
        let rest = indices.drop_last();
        assert forall|i: int| 0 <= i < rest.len() implies 0 <= #[trigger] rest[i] < cols.len() by {
            assert(rest[i] == indices[i]);
        }
        lemma_selection_is_listing(cols, rest);
        let s = cols_at(cols, rest);
        let k = indices.last();
        assert(k == indices[indices.len() - 1]);
        assert forall|i: int| 0 <= i < s.len() implies cols.contains(#[trigger] s[i]) by {
            assert(s[i] == cols[rest[i]]);
        }
        assert(!s.contains(cols[k])) by {
            if s.contains(cols[k]) {
                let i = choose|i: int| 0 <= i < s.len() && s[i] == cols[k];
                let a = rest[i];
                assert(indices[i] != k);
                if a < k {
                    assert(cols[a].field != cols[k].field);
                } else {
                    assert(cols[k].field != cols[a].field);
                }
            }
        }
        lemma_insert_own(cols, s, k);
        assert(s.push(cols[k]) =~= cols_at(cols, indices));
    } else {
        assert(cols_at(cols, indices) =~= Seq::<ColView>::empty());
    }
}

proof fn lemma_selection_first(cols: Seq<ColView>, indices: Seq<int>, n: nat)
    requires
        distinct_fields(cols),
        indices.no_duplicates(),
        forall|i: int| 0 <= i < indices.len() ==> 0 <= #[trigger] indices[i] < cols.len(),
        n <= cols.len(),
    ensures
        with_system_cols(cols, indices, n).len() >= indices.len(),
        with_system_cols(cols, indices, n).take(indices.len() as int) == cols_at(cols, indices),
        forall|i: int|
            0 <= i < with_system_cols(cols, indices, n).len() ==> cols.contains(
                #[trigger] with_system_cols(cols, indices, n)[i],
            ),
    decreases n,
{
    if n == 0 {
        lemma_selection_is_listing(cols, indices);
        let s = cols_at(cols, indices);
        assert(s.take(indices.len() as int) =~= s);
        assert forall|i: int| 0 <= i < s.len() implies cols.contains(#[trigger] s[i]) by {
            assert(s[i] == cols[indices[i]]);
        }
    } else {
        lemma_selection_first(cols, indices, (n - 1) as nat);
        let before = with_system_cols(cols, indices, (n - 1) as nat);
        lemma_insert_own(cols, before, n - 1);
        let after = with_system_cols(cols, indices, n);
        assert(after.take(indices.len() as int) =~= before.take(indices.len() as int));
        assert forall|i: int| 0 <= i < after.len() implies cols.contains(#[trigger] after[i]) by {
            if i < before.len() {
                assert(after[i] == before[i]);
            }
        }
    }
}

/// The columns asked for come first in a subtable, in the order asked for,
/// and all that it holds is of the table.
pub proof fn subtable_begins_with_the_selection(t: TableView, indices: Seq<int>)
    requires
        distinct_fields(t.cols),
        indices.no_duplicates(),
        forall|i: int| 0 <= i < indices.len() ==> 0 <= #[trigger] indices[i] < t.cols.len(),
    ensures
        subtable(t, indices).cols.len() >= indices.len(),
        subtable(t, indices).cols.take(indices.len() as int) == cols_at(t.cols, indices),
        forall|i: int|
            0 <= i < subtable(t, indices).cols.len() ==> t.cols.contains(
                #[trigger] subtable(t, indices).cols[i],
            ),
{
    lemma_selection_first(t.cols, indices, t.cols.len());
}

proof fn lemma_insert_from(s: Seq<ColView>, c: ColView, all: Seq<ColView>)
    requires
        all.contains(c),
        forall|i: int| 0 <= i < s.len() ==> all.contains(#[trigger] s[i]),
    ensures
        forall|i: int|
            0 <= i < cols_insert(s, c.field, c.poly).len() ==> all.contains(
                #[trigger] cols_insert(s, c.field, c.poly)[i],
            ),
        exists|i: int|
            0 <= i < cols_insert(s, c.field, c.poly).len() && (#[trigger] cols_insert(
                s,
                c.field,
                c.poly,
            )[i]).field == c.field,
        forall|f: FieldView|
            #![trigger holds_field(s, f)]
            holds_field(s, f) ==> holds_field(cols_insert(s, c.field, c.poly), f),
{
    let r = cols_insert(s, c.field, c.poly);
    lemma_field_index(s, c.field);
    assert forall|i: int| 0 <= i < r.len() implies all.contains(#[trigger] r[i]) by {
        if r[i] != c {
            assert(r[i] == s[i]);
        }
    }
    match field_index(s, c.field) {
        Some(k) => assert(r[k].field == c.field),
        None => assert(r[s.len() as int].field == c.field),
    }
    assert forall|f: FieldView| #![trigger holds_field(s, f)] holds_field(s, f) implies holds_field(
        r,
        f,
    ) by {
        let i = choose|i: int| 0 <= i < s.len() && (#[trigger] s[i]).field == f;
        assert(r[i].field == f);
    }
}

/// Whether some column has the given field.
pub open spec fn holds_field(s: Seq<ColView>, f: FieldView) -> bool {
    exists|i: int| 0 <= i < s.len() && (#[trigger] s[i]).field == f
}

proof fn lemma_selected_from(cols: Seq<ColView>, indices: Seq<int>)
    requires
        forall|i: int| 0 <= i < indices.len() ==> 0 <= #[trigger] indices[i] < cols.len(),
    ensures
        forall|i: int|
            0 <= i < selected_cols(cols, indices).len() ==> cols.contains(
                #[trigger] selected_cols(cols, indices)[i],
            ),
        forall|k: int|
            0 <= k < indices.len() ==> holds_field(
                selected_cols(cols, indices),
                cols[#[trigger] indices[k]].field,
            ),
        forall|i: int|
            0 <= i < selected_cols(cols, indices).len() ==> exists|k: int|
                0 <= k < indices.len() && cols[#[trigger] indices[k]].field == (
                #[trigger] selected_cols(cols, indices)[i]).field,
    decreases indices.len(),
{
    if indices.len() > 0 {
        let rest = indices.drop_last();
        assert forall|i: int| 0 <= i < rest.len() implies 0 <= #[trigger] rest[i] < cols.len() by {
            assert(rest[i] == indices[i]);
        }
        lemma_selected_from(cols, rest);
        let before = selected_cols(cols, rest);
        let now = selected_cols(cols, indices);
        let last = indices[indices.len() - 1];
        let c = cols[last];
        assert(cols.contains(c));
        lemma_insert_from(before, c, cols);
        lemma_field_index(before, c.field);
        assert forall|k: int| 0 <= k < indices.len() implies holds_field(
            now,
            cols[#[trigger] indices[k]].field,
        ) by {
            if k < rest.len() {
                assert(rest[k] == indices[k]);
                assert(holds_field(before, cols[rest[k]].field));
            }
        }
        assert forall|i: int| 0 <= i < now.len() implies exists|k: int|
            0 <= k < indices.len() && cols[#[trigger] indices[k]].field == (
            #[trigger] now[i]).field by {
            if now[i].field == c.field {
                assert(cols[indices[indices.len() - 1]].field == now[i].field);
            } else {
                assert(now[i] == before[i]);
                let k = choose|k: int|
                    0 <= k < rest.len() && cols[#[trigger] rest[k]].field == before[i].field;
                assert(rest[k] == indices[k]);
                assert(cols[indices[k]].field == now[i].field);
            }
        }
    }
}

proof fn lemma_system_from(cols: Seq<ColView>, indices: Seq<int>, n: nat)
    requires
        forall|i: int| 0 <= i < indices.len() ==> 0 <= #[trigger] indices[i] < cols.len(),
        n <= cols.len(),
    ensures
        forall|i: int|
            0 <= i < with_system_cols(cols, indices, n).len() ==> cols.contains(
                #[trigger] with_system_cols(cols, indices, n)[i],
            ),
        forall|k: int|
            0 <= k < indices.len() ==> holds_field(
                with_system_cols(cols, indices, n),
                cols[#[trigger] indices[k]].field,
            ),
        forall|j: int|
            0 <= j < n && is_system_name((#[trigger] cols[j]).field.name) ==> holds_field(
                with_system_cols(cols, indices, n),
                cols[j].field,
            ),
        forall|i: int|
            0 <= i < with_system_cols(cols, indices, n).len() && !is_system_name(
                (#[trigger] with_system_cols(cols, indices, n)[i]).field.name,
            ) ==> exists|k: int|
                0 <= k < indices.len() && cols[#[trigger] indices[k]].field == with_system_cols(
                    cols,
                    indices,
                    n,
                )[i].field,
    decreases n,
{
    if n == 0 {
        lemma_selected_from(cols, indices);
    } else {
        lemma_system_from(cols, indices, (n - 1) as nat);
        let before = with_system_cols(cols, indices, (n - 1) as nat);
        let now = with_system_cols(cols, indices, n);
        let c = cols[n - 1];
        assert(cols.contains(c));
        lemma_insert_from(before, c, cols);
        lemma_field_index(before, c.field);
        assert forall|k: int| 0 <= k < indices.len() implies holds_field(
            now,
            cols[#[trigger] indices[k]].field,
        ) by {
            assert(holds_field(before, cols[indices[k]].field));
        }
        assert forall|j: int|
            0 <= j < n && is_system_name((#[trigger] cols[j]).field.name) implies holds_field(
            now,
            cols[j].field,
        ) by {
            if j < n - 1 {
                assert(holds_field(before, cols[j].field));
            }
        }
        assert forall|i: int|
            0 <= i < now.len() && !is_system_name((#[trigger] now[i]).field.name) implies exists|
            k: int,
        |
            0 <= k < indices.len() && cols[#[trigger] indices[k]].field == now[i].field by {
            assert(now[i] == before[i]);
        }
    }
}

/// A subtable is over the rows of its table. It holds nothing but columns of the
/// table, polynomial for polynomial: every column asked for, every system column,
/// and no other.
pub proof fn subtables_hold_the_selection_and_the_system_columns(t: TableView, indices: Seq<int>)
    requires
        forall|i: int| 0 <= i < indices.len() ==> 0 <= #[trigger] indices[i] < t.cols.len(),
    ensures
        subtable(t, indices).log_size == t.log_size,
        forall|i: int|
            0 <= i < subtable(t, indices).cols.len() ==> t.cols.contains(
                #[trigger] subtable(t, indices).cols[i],
            ),
        forall|k: int|
            0 <= k < indices.len() ==> holds_field(
                subtable(t, indices).cols,
                t.cols[#[trigger] indices[k]].field,
            ),
        forall|j: int|
            0 <= j < t.cols.len() && ((#[trigger] t.cols[j]).field.name == "__activator__"@
                || t.cols[j].field.name == "__row_id__"@) ==> holds_field(
                subtable(t, indices).cols,
                t.cols[j].field,
            ),
        forall|i: int|
            0 <= i < subtable(t, indices).cols.len() && !is_system_name(
                (#[trigger] subtable(t, indices).cols[i]).field.name,
            ) ==> exists|k: int|
                0 <= k < indices.len() && t.cols[#[trigger] indices[k]].field == subtable(
                    t,
                    indices,
                ).cols[i].field,
{
    lemma_system_from(t.cols, indices, t.cols.len());
}

/// Inserting a column replaces the polynomial of the first column of the same
/// field, in its place, and appends the column where there is none. No other
/// column changes.
pub proof fn inserting_replaces_or_appends(s: Seq<ColView>, f: FieldView, p: Poly, i: int)
    requires
        0 <= i <= s.len(),
        forall|j: int| 0 <= j < i ==> (#[trigger] s[j]).field != f,
        i < s.len() ==> s[i].field == f,
    ensures
        cols_insert(s, f, p)[i] == (ColView { field: f, poly: p }),
        cols_insert(s, f, p).len() == if i < s.len() {
            s.len()
        } else {
            s.len() + 1
        },
        forall|j: int|
            0 <= j < s.len() && j != i ==> #[trigger] cols_insert(s, f, p)[j] == s[j],
{
    lemma_field_index(s, f);
    match field_index(s, f) {
        Some(k) => {
            if k < i {
                assert(s[k].field != f);
            }
            assert(k == i);
        },
        None => {},
    }
}

} // verus!
