//! Literal expressions: constants over the rows of their scope.
use crate::df_schema::DfSchema;
use crate::hints::{shape_with_system, shape_with_system_columns};
use crate::schema::{fields_view, plain_field, DataType, Field, TypeView};
use crate::table::{
    cols_insert, cols_view, field_index, find_name, insert_col, lemma_field_index, lemma_name_index,
    name_index, poly_named, table_of, ColView, Party, Poly, Table, TableView, TrackedColumn,
    ACTIVATOR_COL_NAME, ROW_ID_COL_NAME,
};
use crate::text::{join_text, join_text3};
use vstd::prelude::*;
use vstd::string::*;

verus! {

/// Where constants are created: the tracker and the size of the domain.
#[derive(Debug, Clone, Copy, PartialEq, Eq, Structural)]
pub struct Domain {
    pub tracker: usize,
    pub log_size: usize,
}

/// The domain of the constants of a literal in the given scope; none where
/// the scope has no activator. The prover takes the size of the table, the
/// verifier that of the activator.
pub open spec fn literal_domain(scope: TableView, party: Party) -> Option<Domain> {
    match poly_named(scope, ACTIVATOR_COL_NAME@) {
        Some(a) => Some(
            Domain {
                tracker: a.tracker,
                log_size: match party {
                    Party::Prover => scope.log_size,
                    Party::Verifier => a.log_size,
                },
            },
        ),
        None => None,
    }
}

/// The domain of the constants of a literal in the given scope.
pub fn constants_domain(scope: &Table, party: Party) -> (r: Option<Domain>)
    ensures
        r == literal_domain(scope@, party),
{
    match scope.activator() {
        Some(a) => Some(
            Domain {
                tracker: a.tracker,
                log_size: match party {
                    Party::Prover => scope.log_size,
                    Party::Verifier => a.log_size,
                },
            },
        ),
        None => None,
    }
}

/// The two parties create the constants of a literal over the same domain
/// wherever the activator spans the rows of its table.
pub proof fn parties_share_the_domain(scope: TableView)
    requires
        poly_named(scope, ACTIVATOR_COL_NAME@) matches Some(a) ==> a.log_size == scope.log_size,
    ensures
        literal_domain(scope, Party::Prover) == literal_domain(scope, Party::Verifier),
{
}

/// A literal: the text it shows as, its type, and the constant of each of
/// its segments with the segment's suffix.
#[derive(Debug)]
pub struct Literal {
    pub label: String,
    pub data_type: DataType,
    pub segments: Vec<(String, Poly)>,
}

/// The segments of a list as mathematical values.
pub open spec fn segments_view(s: Seq<(String, Poly)>) -> Seq<(Seq<char>, Poly)> {
    Seq::new(s.len(), |i: int| (s[i].0@, s[i].1))
}

/// The columns of the segments: the label and the suffix as their names.
pub open spec fn segment_cols(
    label: Seq<char>,
    data_type: TypeView,
    segments: Seq<(Seq<char>, Poly)>,
) -> Seq<ColView>
    decreases segments.len(),
{
    if segments.len() == 0 {
        Seq::empty()
    } else {
        cols_insert(
            segment_cols(label, data_type, segments.drop_last()),
            plain_field(label + segments.last().0, data_type, true),
            segments.last().1,
        )
    }
}

/// The columns of a literal: its segments, the row number of the scope where
/// it has one, and the scope's activator.
pub open spec fn literal_cols(
    scope: TableView,
    segments: Seq<ColView>,
    activator: Poly,
) -> Seq<ColView> {
    let with_id = match name_index(scope.cols, ROW_ID_COL_NAME@) {
        Some(i) => cols_insert(segments, scope.cols[i].field, scope.cols[i].poly),
        None => segments,
    };
    cols_insert(with_id, plain_field(ACTIVATOR_COL_NAME@, TypeView::Boolean, true), activator)
}

/// The table of a literal over a domain of the given size; none where the
/// scope has no activator.
pub open spec fn literal_table(scope: TableView, literal: Literal, party: Party) -> Option<
    TableView,
> {
    match (poly_named(scope, ACTIVATOR_COL_NAME@), literal_domain(scope, party)) {
        (Some(a), Some(d)) => Some(
            table_of(
                literal_cols(
                    scope,
                    segment_cols(
                        literal.label@,
                        literal.data_type@,
                        segments_view(literal.segments@),
                    ),
                    a,
                ),
                d.log_size,
            ),
        ),
        _ => None,
    }
}

/// The table of a literal in the given scope.
pub fn add_virtual_witness(scope: &Table, literal: &Literal, party: Party) -> (r: Option<Table>)
    ensures
        match r {
            Some(t) => literal_table(scope@, *literal, party) == Some(t@),
            None => literal_table(scope@, *literal, party) is None,
        },
{
    let domain: Domain = match constants_domain(scope, party) {
        Some(d) => d,
        None => return None,
    };
    let activator: Poly = match scope.activator() {
        Some(a) => a,
        None => return None,
    };
    let ghost segments = segments_view(literal.segments@);
    let mut cols: Vec<TrackedColumn> = Vec::new();
    let mut i: usize = 0;
    assert(segments.take(0) =~= Seq::<(Seq<char>, Poly)>::empty());
    assert(cols_view(cols@) =~= Seq::<ColView>::empty());
    while i < literal.segments.len()
        invariant
            i <= literal.segments@.len(),
            segments == segments_view(literal.segments@),
            cols_view(cols@) == segment_cols(
                literal.label@,
                literal.data_type@,
                segments.take(i as int),
            ),
        decreases literal.segments@.len() - i,
    {
        proof {
            assert(segments.take(i + 1).drop_last() =~= segments.take(i as int));
            assert(segments.take(i + 1).last() == segments[i as int]);
        }
        let name: String = join_text(literal.label.as_str(), literal.segments[i].0.as_str());
        let field: Field = Field::new(name.as_str(), literal.data_type.copy(), true);
        insert_col(&mut cols, field, literal.segments[i].1);
        i = i + 1;
    }
    assert(segments.take(segments.len() as int) =~= segments);
    match find_name(&scope.cols, ROW_ID_COL_NAME) {
        Some(k) => {
            assert(scope@.cols[k as int] == scope.cols@[k as int]@);
            insert_col(&mut cols, scope.cols[k].field.copy(), scope.cols[k].poly);
        },
        None => {},
    }
    insert_col(&mut cols, Field::new(ACTIVATOR_COL_NAME, DataType::Boolean, true), activator);
    Some(Table::of(cols, domain.log_size))
}

/// The fields of a literal's planned output where only shapes are planned.
pub fn output_fields(label: &str, data_type: DataType, input: &DfSchema) -> (r: Vec<Field>)
    ensures
        fields_view(r@) == shape_with_system(input@, plain_field(label@, data_type@, true)),
{
    shape_with_system_columns(input, Field::new(label, data_type, true))
}

/// A literal as text: the node it is read over and the value.
pub fn display(scope_name: &str, label: &str) -> (r: String)
    ensures
        r@ == "Literal\nScope: "@ + scope_name@ + ", value: "@ + label@,
{
    let mut out: String = join_text3("Literal\nScope: ", scope_name, ", value: ");
    out.append(label);
    out
}

proof fn lemma_segment_cols(
    label: Seq<char>,
    data_type: TypeView,
    segments: Seq<(Seq<char>, Poly)>,
)
    requires
        forall|i: int, j: int|
            0 <= i < j < segments.len() ==> (#[trigger] segments[i]).0 != (
            #[trigger] segments[j]).0,
    ensures
        segment_cols(label, data_type, segments).len() == segments.len(),
        forall|k: int|
            0 <= k < segments.len() ==> {
                let c = #[trigger] segment_cols(label, data_type, segments)[k];
                &&& c.field == plain_field(label + segments[k].0, data_type, true)
                &&& c.poly == segments[k].1
            },
    decreases segments.len(),
{
    if segments.len() > 0 {
        let t = segments.drop_last();
        let before = segment_cols(label, data_type, t);
        assert forall|i: int, j: int| 0 <= i < j < t.len() implies (#[trigger] t[i]).0 != (
        #[trigger] t[j]).0 by {
            assert(t[i] == segments[i] && t[j] == segments[j]);
        }
        lemma_segment_cols(label, data_type, t);
        let f = plain_field(label + segments.last().0, data_type, true);
        lemma_field_index(before, f);
        match field_index(before, f) {
            Some(k) => {
                let n = label.len() as int;
                assert(t[k] == segments[k]);
                assert((label + segments[k].0).skip(n) =~= segments[k].0);
                assert((label + segments.last().0).skip(n) =~= segments.last().0);
                assert(false);
            },
            None => {},
        }
        assert forall|k: int| 0 <= k < segments.len() implies {
            let c = #[trigger] segment_cols(label, data_type, segments)[k];
            &&& c.field == plain_field(label + segments[k].0, data_type, true)
            &&& c.poly == segments[k].1
        } by {
            if k < t.len() {
                assert(segment_cols(label, data_type, segments)[k] == before[k]);
                assert(t[k] == segments[k]);
            }
        }
    }
}

/// A literal has one column for each of its segments, in order, under its own
/// text and the segment's suffix. Behind them stand the row number of its
/// scope, where that has one, and the activator of its scope.
pub proof fn literals_are_active_where_their_scope_is(
    scope: TableView,
    literal: Literal,
    party: Party,
    a: int,
)
    requires
        0 <= a < scope.cols.len(),
        scope.cols[a].field.name == "__activator__"@,
        forall|j: int|
            0 <= j < a ==> (#[trigger] scope.cols[j]).field.name != "__activator__"@,
        forall|i: int, j: int|
            0 <= i < j < literal.segments@.len() ==> (#[trigger] literal.segments@[i]).0@ != (
            #[trigger] literal.segments@[j]).0@,
        forall|i: int|
            0 <= i < literal.segments@.len() ==> literal.label@ + (
            #[trigger] literal.segments@[i]).0@ != "__activator__"@ && literal.label@
                + literal.segments@[i].0@ != "__row_id__"@,
    ensures
        literal_table(scope, literal, party) matches Some(t) && {
            let n = literal.segments@.len() as int;
            &&& t.cols.len() >= n + 1
            &&& forall|k: int|
                0 <= k < n ==> {
                    &&& (#[trigger] t.cols[k]).field.name == literal.label@
                        + literal.segments@[k].0@
                    &&& t.cols[k].field.data_type == literal.data_type@
                    &&& t.cols[k].field.nullable
                    &&& t.cols[k].poly == literal.segments@[k].1
                }
            &&& t.cols.last().field.name == "__activator__"@
            &&& t.cols.last().poly == scope.cols[a].poly
            &&& t.log_size == (match party {
                Party::Prover => scope.log_size,
                Party::Verifier => scope.cols[a].poly.log_size,
            })
            &&& t.cols.len() == n + 2 ==> exists|r: int|
                0 <= r < scope.cols.len() && (#[trigger] scope.cols[r]).field.name == "__row_id__"@
                    && t.cols[n] == scope.cols[r]
            &&& t.cols.len() != n + 2 ==> t.cols.len() == n + 1 && forall|r: int|
                0 <= r < scope.cols.len() ==> (#[trigger] scope.cols[r]).field.name != "__row_id__"@
        },
{
    let segments = segments_view(literal.segments@);
    let cols = segment_cols(literal.label@, literal.data_type@, segments);
    assert forall|i: int, j: int| 0 <= i < j < segments.len() implies (#[trigger] segments[i]).0
        != (#[trigger] segments[j]).0 by {
        assert(literal.segments@[i].0@ != literal.segments@[j].0@);
    }
    lemma_segment_cols(literal.label@, literal.data_type@, segments);
    lemma_name_index(scope.cols, ACTIVATOR_COL_NAME@);
    lemma_name_index(scope.cols, ROW_ID_COL_NAME@);
    assert(name_index(scope.cols, ACTIVATOR_COL_NAME@) == Some(a));
    let poly = scope.cols[a].poly;
    assert(poly_named(scope, ACTIVATOR_COL_NAME@) == Some(poly));
    let all = literal_cols(scope, cols, poly);
    reveal_strlit("__activator__");
    reveal_strlit("__row_id__");
    assert("__row_id__"@.len() != "__activator__"@.len());
    let act = plain_field(ACTIVATOR_COL_NAME@, TypeView::Boolean, true);
    assert forall|k: int| 0 <= k < cols.len() implies (#[trigger] cols[k]).field.name
        != "__activator__"@ && cols[k].field.name != "__row_id__"@ by {
        assert(literal.segments@[k].0@ == segments[k].0);
    }
    match name_index(scope.cols, ROW_ID_COL_NAME@) {
        Some(r) => {
            lemma_field_index(cols, scope.cols[r].field);
            let with_id = cols_insert(cols, scope.cols[r].field, scope.cols[r].poly);
            assert(with_id =~= cols.push(scope.cols[r]));
            lemma_field_index(with_id, act);
        },
        None => {
            lemma_field_index(cols, act);
        },
    }
}

} // verus!
