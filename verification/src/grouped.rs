//! Tables whose columns keep their segments together.
//!
//! A column has a primary segment, auxiliary segments over the rows of the
//! table, and side segments over domains of their own. Flattening a table
//! lists each column's primary segment followed by its auxiliary ones.
use crate::alias::auxiliary_of;
use crate::plan::{Schema, SchemaView};
use crate::schema::{Field, FieldView};
use crate::table::{
    cols_insert, cols_view, insert_col, is_segment_of, lemma_field_index, ColView, Poly, TableView,
    TrackedColumn,
};
use crate::text::{join_text, same_text, without_prefix};
use vstd::prelude::*;

verus! {

/// A polynomial and the activator that it is paired with.
#[derive(Debug, Clone, Copy, PartialEq, Eq, Structural)]
pub struct Bundle {
    pub poly: Poly,
    pub activator: Option<Poly>,
}

/// A segment of a column, by its suffix.
#[derive(Debug)]
pub struct Segment {
    pub suffix: String,
    pub bundle: Bundle,
}

/// A column with its segments.
#[derive(Debug)]
pub struct GroupedCol {
    pub field: Field,
    pub primary: Bundle,
    pub row_aux: Vec<Segment>,
    pub side_aux: Vec<Segment>,
}

/// A table of columns with their segments.
#[derive(Debug)]
pub struct GroupedTable {
    pub schema: Option<Schema>,
    pub cols: Vec<GroupedCol>,
    pub log_size: usize,
}

/// Mathematical counterpart of [`Segment`].
#[verifier::ext_equal]
pub struct SegmentView {
    pub suffix: Seq<char>,
    pub bundle: Bundle,
}

/// Mathematical counterpart of [`GroupedCol`].
#[verifier::ext_equal]
pub struct GroupedView {
    pub field: FieldView,
    pub primary: Bundle,
    pub row_aux: Seq<SegmentView>,
    pub side_aux: Seq<SegmentView>,
}

/// Mathematical counterpart of [`GroupedTable`].
#[verifier::ext_equal]
pub struct GroupedTableView {
    pub schema: Option<SchemaView>,
    pub cols: Seq<GroupedView>,
    pub log_size: usize,
}

/// A segment as it stands among the rows of a table.
#[verifier::ext_equal]
pub struct RowSegment {
    pub field: FieldView,
    pub bundle: Bundle,
}

/// The segments of a list as mathematical values.
pub open spec fn segments_of(s: Seq<Segment>) -> Seq<SegmentView> {
    Seq::new(s.len(), |i: int| SegmentView { suffix: s[i].suffix@, bundle: s[i].bundle })
}

/// Copies of the segments, in order.
pub fn copy_segments(list: &Vec<Segment>) -> (r: Vec<Segment>)
    ensures
        segments_of(r@) == segments_of(list@),
{
    let mut out: Vec<Segment> = Vec::new();
    let mut i: usize = 0;
    while i < list.len()
        invariant
            i <= list@.len(),
            out@.len() == i,
            forall|j: int|
                0 <= j < i ==> (#[trigger] out@[j]).suffix@ == list@[j].suffix@ && out@[j].bundle
                    == list@[j].bundle,
        decreases list@.len() - i,
    {
        out.push(Segment { suffix: list[i].suffix.clone(), bundle: list[i].bundle });
        i = i + 1;
    }
    assert(segments_of(out@) =~= segments_of(list@));
    out
}

impl GroupedCol {
    /// The column as a mathematical value.
    pub open spec fn view(&self) -> GroupedView {
        GroupedView {
            field: self.field@,
            primary: self.primary,
            row_aux: segments_of(self.row_aux@),
            side_aux: segments_of(self.side_aux@),
        }
    }

    /// The same segments under another field.
    pub fn rebind(&self, field: Field) -> (r: GroupedCol)
        ensures
            r@ == (GroupedView { field: field@, ..self@ }),
    {
        GroupedCol {
            field,
            primary: self.primary,
            row_aux: copy_segments(&self.row_aux),
            side_aux: copy_segments(&self.side_aux),
        }
    }
}

/// The columns of a list as mathematical values.
pub open spec fn grouped_view(s: Seq<GroupedCol>) -> Seq<GroupedView> {
    Seq::new(s.len(), |i: int| s[i]@)
}

/// The field of an auxiliary segment: that of its column, with the suffix
/// behind the name.
pub open spec fn aux_field(f: FieldView, suffix: Seq<char>) -> FieldView {
    FieldView { name: f.name + suffix, ..f }
}

/// The first `n` auxiliary segments of a column behind `before`.
pub open spec fn with_aux(before: Seq<RowSegment>, g: GroupedView, n: nat) -> Seq<RowSegment>
    decreases n,
{
    if n == 0 {
        before
    } else {
        with_aux(before, g, (n - 1) as nat).push(
            RowSegment {
                field: aux_field(g.field, g.row_aux[n - 1].suffix),
                bundle: g.row_aux[n - 1].bundle,
            },
        )
    }
}

/// The row segments of the first `n` columns: of each its primary segment,
/// then its auxiliary ones.
pub open spec fn row_segments(cols: Seq<GroupedView>, n: nat) -> Seq<RowSegment>
    decreases n,
{
    if n == 0 {
        Seq::empty()
    } else {
        let g = cols[n - 1];
        with_aux(
            row_segments(cols, (n - 1) as nat).push(
                RowSegment { field: g.field, bundle: g.primary },
            ),
            g,
            g.row_aux.len(),
        )
    }
}

/// All the row segments of a table.
pub open spec fn table_segments(t: GroupedTableView) -> Seq<RowSegment> {
    row_segments(t.cols, t.cols.len())
}

/// The segments as flat columns, each field once.
pub open spec fn flat_cols(s: Seq<RowSegment>) -> Seq<ColView>
    decreases s.len(),
{
    if s.len() == 0 {
        Seq::empty()
    } else {
        cols_insert(flat_cols(s.drop_last()), s.last().field, s.last().bundle.poly)
    }
}

/// A table with its segments as columns.
pub open spec fn flat_table(t: GroupedTableView) -> TableView {
    TableView {
        schema: t.schema,
        cols: flat_cols(table_segments(t)),
        side_cols: Seq::empty(),
        log_size: t.log_size,
    }
}

/// Whether a segment lies over the rows of a table of the given size, and
/// the activator that it is paired with too.
pub open spec fn on_rows(s: RowSegment, log_size: usize) -> bool {
    s.bundle.poly.log_size == log_size && (s.bundle.activator matches Some(a) ==> a.log_size
        == log_size)
}

/// Whether every row segment of a table, constants among them, lies over the
/// table's own rows.
pub open spec fn one_row_domain(t: GroupedTableView) -> bool {
    forall|i: int|
        0 <= i < table_segments(t).len() ==> on_rows(#[trigger] table_segments(t)[i], t.log_size)
}

fn bundle_on_rows(b: Bundle, log_size: usize) -> (r: bool)
    ensures
        r == (b.poly.log_size == log_size && (b.activator matches Some(a) ==> a.log_size
            == log_size)),
{
    b.poly.log_size == log_size && (match b.activator {
        Some(a) => a.log_size == log_size,
        None => true,
    })
}

proof fn lemma_aux_prefix(before: Seq<RowSegment>, g: GroupedView, n: nat)
    ensures
        with_aux(before, g, n).len() == before.len() + n,
        with_aux(before, g, n).take(before.len() as int) == before,
        forall|k: int|
            0 <= k < n ==> (#[trigger] with_aux(before, g, n)[before.len() + k]) == (RowSegment {
                field: aux_field(g.field, g.row_aux[k].suffix),
                bundle: g.row_aux[k].bundle,
            }),
    decreases n,
{
    if n > 0 {
        lemma_aux_prefix(before, g, (n - 1) as nat);
        let prev = with_aux(before, g, (n - 1) as nat);
        let now = with_aux(before, g, n);
        assert(now.take(before.len() as int) =~= prev.take(before.len() as int));
        assert forall|k: int| 0 <= k < n implies (#[trigger] now[before.len() + k]) == (RowSegment {
            field: aux_field(g.field, g.row_aux[k].suffix),
            bundle: g.row_aux[k].bundle,
        }) by {
            if k < n - 1 {
                assert(now[before.len() + k] == prev[before.len() + k]);
            }
        }
    } else {
        assert(before.take(before.len() as int) =~= before);
    }
}

proof fn lemma_segments_prefix(cols: Seq<GroupedView>, n: nat, m: nat)
    requires
        n <= m,
    ensures
        row_segments(cols, n).len() <= row_segments(cols, m).len(),
        row_segments(cols, m).take(row_segments(cols, n).len() as int) == row_segments(cols, n),
    decreases m,
{
    let a = row_segments(cols, n);
    if n == m {
        assert(a.take(a.len() as int) =~= a);
    } else {
        lemma_segments_prefix(cols, n, (m - 1) as nat);
        let b = row_segments(cols, (m - 1) as nat);
        let g = cols[m - 1];
        let c = b.push(RowSegment { field: g.field, bundle: g.primary });
        lemma_aux_prefix(c, g, g.row_aux.len());
        let d = row_segments(cols, m);
        assert(d.take(a.len() as int) =~= d.take(c.len() as int).take(a.len() as int));
        assert(c.take(a.len() as int) =~= b.take(a.len() as int));
    }
}

/// The number of segments of as many columns as a list can hold fits.
proof fn lemma_segment_count(i: int)
    requires
        0 <= i < usize::MAX,
    ensures
        i * 0x1_0000_0000_0000_0000 + 0x1_0000_0000_0000_0000 <= u128::MAX,
{
    assert(i * 0x1_0000_0000_0000_0000 + 0x1_0000_0000_0000_0000 <= u128::MAX) by (nonlinear_arith)
        requires
            0 <= i < 0xffff_ffff_ffff_ffff,
    ;
}

impl GroupedTable {
    /// The table as a mathematical value.
    pub open spec fn view(&self) -> GroupedTableView {
        GroupedTableView {
            schema: match self.schema {
                Some(s) => Some(s@),
                None => None,
            },
            cols: grouped_view(self.cols@),
            log_size: self.log_size,
        }
    }

    /// The columns of the flattened table, and the number of row segments
    /// that they were made from.
    pub fn flatten(&self) -> (r: (Vec<TrackedColumn>, u128))
        ensures
            cols_view(r.0@) == flat_cols(table_segments(self@)),
            r.1 == table_segments(self@).len(),
    {
        let mut out: Vec<TrackedColumn> = Vec::new();
        let mut count: u128 = 0;
        let ghost views = grouped_view(self.cols@);
        let mut i: usize = 0;
        assert(cols_view(out@) =~= flat_cols(row_segments(views, 0)));
        while i < self.cols.len()
            invariant
                i <= self.cols@.len(),
                views == grouped_view(self.cols@),
                table_segments(self@) == row_segments(views, self.cols@.len()),
                count <= i * 0x1_0000_0000_0000_0000,
                cols_view(out@) == flat_cols(row_segments(views, i as nat)),
                count == row_segments(views, i as nat).len(),
            decreases self.cols@.len() - i,
        {
            let g: &GroupedCol = &self.cols[i];
            assert(views[i as int] == g@);
            let ghost base = row_segments(views, i as nat).push(
                RowSegment { field: g@.field, bundle: g@.primary },
            );
            proof {
                assert(base.drop_last() =~= row_segments(views, i as nat));
                lemma_segments_prefix(views, (i + 1) as nat, self.cols@.len());
                lemma_aux_prefix(base, g@, g@.row_aux.len());
            }
            proof {
                lemma_segment_count(i as int);
            }
            let ghost started = count;
            let n: usize = g.row_aux.len();
            insert_col(&mut out, g.field.copy(), g.primary.poly);
            count = count + 1;
            let mut k: usize = 0;
            while k < n
                invariant
                    k <= n,
                    n == g.row_aux@.len(),
                    g@.row_aux == segments_of(g.row_aux@),
                    cols_view(out@) == flat_cols(with_aux(base, g@, k as nat)),
                    count == with_aux(base, g@, k as nat).len(),
                    count == base.len() + k,
                    base.len() + n <= u128::MAX,
                decreases n - k,
            {
                let s: &Segment = &g.row_aux[k];
                let name: String = join_text(g.field.name.as_str(), s.suffix.as_str());
                let ghost seg = RowSegment {
                    field: aux_field(g@.field, s.suffix@),
                    bundle: s.bundle,
                };
                proof {
                    assert(g@.row_aux[k as int].suffix == s.suffix@);
                    assert(with_aux(base, g@, k as nat).push(seg).drop_last() =~= with_aux(
                        base,
                        g@,
                        k as nat,
                    ));
                }
                insert_col(&mut out, g.field.copy().with_name(name.as_str()), s.bundle.poly);
                count = count + 1;
                k = k + 1;
            }
            proof {
                assert(count <= started + 0x1_0000_0000_0000_0000);
                assert((i + 1) * 0x1_0000_0000_0000_0000 == i * 0x1_0000_0000_0000_0000
                    + 0x1_0000_0000_0000_0000) by (nonlinear_arith);
            }
            i = i + 1;
        }
        (out, count)
    }

    /// Whether every row segment lies over the table's own rows.
    pub fn has_one_row_domain(&self) -> (r: bool)
        ensures
            r == one_row_domain(self@),
    {
        let ghost views = grouped_view(self.cols@);
        let ghost all = table_segments(self@);
        let mut i: usize = 0;
        while i < self.cols.len()
            invariant
                i <= self.cols@.len(),
                views == grouped_view(self.cols@),
                all == row_segments(views, self.cols@.len()),
                all == table_segments(self@),
                forall|j: int|
                    0 <= j < row_segments(views, i as nat).len() ==> on_rows(
                        #[trigger] row_segments(views, i as nat)[j],
                        self.log_size,
                    ),
            decreases self.cols@.len() - i,
        {
            let g: &GroupedCol = &self.cols[i];
            assert(views[i as int] == g@);
            let ghost before = row_segments(views, i as nat);
            let ghost base = before.push(RowSegment { field: g@.field, bundle: g@.primary });
            let ghost now = row_segments(views, (i + 1) as nat);
            proof {
                lemma_segments_prefix(views, (i + 1) as nat, self.cols@.len());
                lemma_aux_prefix(base, g@, g@.row_aux.len());
                assert(now == with_aux(base, g@, g@.row_aux.len()));
                assert(now[before.len() as int] == now.take(base.len() as int)[before.len() as int]);
                assert(now[before.len() as int] == all.take(now.len() as int)[before.len() as int]);
            }
            if !bundle_on_rows(g.primary, self.log_size) {
                assert(!on_rows(all[before.len() as int], self.log_size));
                return false;
            }
            let mut k: usize = 0;
            while k < g.row_aux.len()
                invariant
                    k <= g.row_aux@.len(),
                    g@.row_aux == segments_of(g.row_aux@),
                    all == table_segments(self@),
                    now == with_aux(base, g@, g@.row_aux.len()),
                    now.len() <= all.len(),
                    now.len() == base.len() + g.row_aux@.len(),
                    all.take(now.len() as int) == now,
                    forall|j: int|
                        0 <= j < g.row_aux@.len() ==> (#[trigger] now[base.len() + j]) == (
                        RowSegment {
                            field: aux_field(g@.field, g@.row_aux[j].suffix),
                            bundle: g@.row_aux[j].bundle,
                        }),
                    forall|j: int|
                        0 <= j < k ==> on_rows(#[trigger] now[base.len() + j], self.log_size),
                decreases g.row_aux@.len() - k,
            {
                assert(now[base.len() + k].bundle == g.row_aux@[k as int].bundle);
                if !bundle_on_rows(g.row_aux[k].bundle, self.log_size) {
                    assert(now[base.len() + k] == all.take(now.len() as int)[base.len() + k]);
                    assert(!on_rows(all[base.len() + k], self.log_size));
                    return false;
                }
                k = k + 1;
            }
            proof {
                assert forall|j: int| 0 <= j < now.len() implies on_rows(
                    #[trigger] now[j],
                    self.log_size,
                ) by {
                    if j < before.len() {
                        assert(now[j] == now.take(base.len() as int)[j]);
                        assert(now[j] == before[j]);
                    } else if j == before.len() {
                    } else {
                        assert(now[j] == now[base.len() + (j - base.len())]);
                    }
                }
            }
            i = i + 1;
        }
        true
    }
}

// ---------------------------------------------------------------------------
// Grouping flat columns
// ---------------------------------------------------------------------------

/// The first `n` flat columns as columns with segments: a column whose name
/// is an auxiliary segment of the column begun before it belongs to that.
pub open spec fn regrouped(cols: Seq<ColView>, n: nat) -> Seq<GroupedView>
    decreases n,
{
    if n == 0 {
        Seq::empty()
    } else {
        let before = regrouped(cols, (n - 1) as nat);
        let c = cols[n - 1];
        let bundle = Bundle { poly: c.poly, activator: None };
        if before.len() > 0 && auxiliary_of(c.field.name, before.last().field.name) {
            let g = before.last();
            before.drop_last().push(
                GroupedView {
                    row_aux: g.row_aux.push(
                        SegmentView {
                            suffix: c.field.name.skip(g.field.name.len() as int),
                            bundle,
                        },
                    ),
                    ..g
                },
            )
        } else {
            before.push(
                GroupedView {
                    field: c.field,
                    primary: bundle,
                    row_aux: Seq::empty(),
                    side_aux: Seq::empty(),
                },
            )
        }
    }
}

/// Flat columns as columns with segments.
pub fn regroup(cols: &Vec<TrackedColumn>) -> (r: Vec<GroupedCol>)
    ensures
        grouped_view(r@) == regrouped(cols_view(cols@), cols@.len()),
{
    let ghost views = cols_view(cols@);
    let mut out: Vec<GroupedCol> = Vec::new();
    let mut i: usize = 0;
    assert(grouped_view(out@) =~= regrouped(views, 0));
    while i < cols.len()
        invariant
            i <= cols@.len(),
            views == cols_view(cols@),
            grouped_view(out@) == regrouped(views, i as nat),
        decreases cols@.len() - i,
    {
        let c: &TrackedColumn = &cols[i];
        assert(views[i as int] == c@);
        let ghost before = grouped_view(out@);
        let bundle = Bundle { poly: c.poly, activator: None };
        let mut suffix: Option<String> = None;
        if out.len() > 0 {
            let base: &str = out[out.len() - 1].field.name.as_str();
            assert(before.last() == out@[out@.len() - 1]@);
            if !same_text(c.field.name.as_str(), base) && is_segment_of(
                c.field.name.as_str(),
                base,
            ) {
                proof {
                    assert(c@.field.name.take(base@.len() as int) =~= base@);
                }
                suffix = without_prefix(c.field.name.as_str(), base);
            }
        }
        match suffix {
            Some(text) => {
                let mut last: GroupedCol = match out.pop() {
                    Some(g) => g,
                    None => GroupedCol {
                        field: c.field.copy(),
                        primary: bundle,
                        row_aux: Vec::new(),
                        side_aux: Vec::new(),
                    },
                };
                assert(grouped_view(out@) =~= before.drop_last());
                assert(last@ == before.last());
                let ghost aux = segments_of(last.row_aux@);
                last.row_aux.push(Segment { suffix: text, bundle });
                assert(segments_of(last.row_aux@) =~= aux.push(
                    SegmentView { suffix: text@, bundle },
                ));
                out.push(last);
                assert(grouped_view(out@) =~= before.drop_last().push(last@));
            },
            None => {
                let g = GroupedCol {
                    field: c.field.copy(),
                    primary: bundle,
                    row_aux: Vec::new(),
                    side_aux: Vec::new(),
                };
                assert(g@.row_aux =~= Seq::<SegmentView>::empty());
                assert(g@.side_aux =~= Seq::<SegmentView>::empty());
                out.push(g);
                assert(grouped_view(out@) =~= before.push(g@));
            },
        }
        i = i + 1;
    }
    out
}

/// Whether a column with segments is made of the flat columns from `k` on: its
/// primary segment at `k`, then its auxiliary segments in order.
pub open spec fn made_of(g: GroupedView, cols: Seq<ColView>, k: int) -> bool {
    &&& 0 <= k
    &&& k + g.row_aux.len() < cols.len()
    &&& g.field == cols[k].field
    &&& g.primary.poly == cols[k].poly
    &&& forall|j: int|
        0 <= j < g.row_aux.len() ==> (#[trigger] g.row_aux[j]).bundle.poly == cols[k + 1 + j].poly
            && cols[k + 1 + j].field.name == g.field.name + g.row_aux[j].suffix
}

/// Where the columns with segments begin among the flat columns.
pub proof fn regrouped_columns_are_runs(cols: Seq<ColView>, n: nat, m: int) -> (k: int)
    requires
        n <= cols.len(),
        0 <= m < regrouped(cols, n).len(),
    ensures
        made_of(regrouped(cols, n)[m], cols, k),
        k + regrouped(cols, n)[m].row_aux.len() < n,
        m == regrouped(cols, n).len() - 1 ==> k + regrouped(cols, n)[m].row_aux.len() == n - 1,
        m < regrouped(cols, n).len() - 1 ==> k + regrouped(cols, n)[m].row_aux.len() < n - 1,
    decreases n,
{
    let before = regrouped(cols, (n - 1) as nat);
    let now = regrouped(cols, n);
    let c = cols[n - 1];
    if before.len() > 0 && auxiliary_of(c.field.name, before.last().field.name) {
        let g = before.last();
        if m == before.len() - 1 {
            let k = regrouped_columns_are_runs(cols, (n - 1) as nat, m);
            let h = now[m];
            assert(c.field.name =~= g.field.name + c.field.name.skip(g.field.name.len() as int));
            assert forall|j: int| 0 <= j < h.row_aux.len() implies (
            #[trigger] h.row_aux[j]).bundle.poly == cols[k + 1 + j].poly && cols[k + 1
                + j].field.name == h.field.name + h.row_aux[j].suffix by {
                if j < g.row_aux.len() {
                    assert(h.row_aux[j] == g.row_aux[j]);
                }
            }
            k
        } else {
            assert(now[m] == before[m]);
            regrouped_columns_are_runs(cols, (n - 1) as nat, m)
        }
    } else {
        if m == before.len() {
            n - 1
        } else {
            assert(now[m] == before[m]);
            regrouped_columns_are_runs(cols, (n - 1) as nat, m)
        }
    }
}

/// Segments that all have different fields are listed one for one: the flat
/// column at a place has the field and the polynomial of the segment there.
pub proof fn flattening_keeps_every_segment(s: Seq<RowSegment>, i: int)
    requires
        flat_cols(s).len() == s.len(),
        0 <= i < s.len(),
    ensures
        flat_cols(s)[i].field == s[i].field,
        flat_cols(s)[i].poly == s[i].bundle.poly,
    decreases s.len(),
{
    let t = s.drop_last();
    lemma_flat_count(t);
    lemma_field_index(flat_cols(t), s.last().field);
    if i < t.len() {
        flattening_keeps_every_segment(t, i);
        assert(t[i] == s[i]);
    }
}

proof fn lemma_flat_count(s: Seq<RowSegment>)
    ensures
        flat_cols(s).len() <= s.len(),
    decreases s.len(),
{
    if s.len() > 0 {
        lemma_flat_count(s.drop_last());
        lemma_field_index(flat_cols(s.drop_last()), s.last().field);
    }
}

/// Every column is among the row segments of its table: its primary segment
/// under its own field, and directly behind it each of its auxiliary segments
/// under the field with the suffix behind the name.
pub proof fn columns_are_listed_with_their_segments(cols: Seq<GroupedView>, n: nat, m: int) -> (k:
    int)
    requires
        0 <= m < n <= cols.len(),
    ensures
        0 <= k,
        k + cols[m].row_aux.len() < row_segments(cols, n).len(),
        row_segments(cols, n)[k].field == cols[m].field,
        row_segments(cols, n)[k].bundle == cols[m].primary,
        forall|j: int|
            0 <= j < cols[m].row_aux.len() ==> (#[trigger] cols[m].row_aux[j]).bundle
                == row_segments(cols, n)[k + 1 + j].bundle && row_segments(cols, n)[k + 1
                + j].field.name == cols[m].field.name + cols[m].row_aux[j].suffix && row_segments(
                cols,
                n,
            )[k + 1 + j].field.data_type == cols[m].field.data_type,
{
    let before = row_segments(cols, m as nat);
    let g = cols[m];
    let base = before.push(RowSegment { field: g.field, bundle: g.primary });
    let own = row_segments(cols, (m + 1) as nat);
    let all = row_segments(cols, n);
    let k = before.len() as int;
    lemma_aux_prefix(base, g, g.row_aux.len());
    lemma_segments_prefix(cols, (m + 1) as nat, n);
    assert(own[k] == own.take(base.len() as int)[k]);
    assert(all[k] == all.take(own.len() as int)[k]);
    assert forall|j: int| 0 <= j < g.row_aux.len() implies (#[trigger] g.row_aux[j]).bundle
        == all[k + 1 + j].bundle && all[k + 1 + j].field.name == g.field.name + g.row_aux[j].suffix
        && all[k + 1 + j].field.data_type == g.field.data_type by {
        assert(own[base.len() + j].bundle == g.row_aux[j].bundle);
        assert(all[k + 1 + j] == all.take(own.len() as int)[k + 1 + j]);
    }
    k
}

/// A table is over one domain only where every segment of every column is over
/// its rows, with its activator where it has one.
pub proof fn one_domain_holds_every_segment(t: GroupedTableView, m: int, j: int)
    requires
        one_row_domain(t),
        0 <= m < t.cols.len(),
    ensures
        t.cols[m].primary.poly.log_size == t.log_size,
        t.cols[m].primary.activator matches Some(a) ==> a.log_size == t.log_size,
        0 <= j < t.cols[m].row_aux.len() ==> t.cols[m].row_aux[j].bundle.poly.log_size
            == t.log_size && (t.cols[m].row_aux[j].bundle.activator matches Some(a) ==> a.log_size
            == t.log_size),
{
    let k = columns_are_listed_with_their_segments(t.cols, t.cols.len(), m);
    let s = table_segments(t);
    assert(on_rows(s[k], t.log_size));
    if 0 <= j < t.cols[m].row_aux.len() {
        assert(t.cols[m].row_aux[j].bundle == s[k + 1 + j].bundle);
        assert(on_rows(s[k + 1 + j], t.log_size));
    }
}

} // verus!
