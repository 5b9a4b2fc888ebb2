//! Schemas whose fields carry the qualifier of the relation they come from.
use crate::plan::{copy_ref_opt, ref_opt, Column, ColumnView, TableReference};
use crate::schema::{fields_view, Field, FieldView};
use crate::seqs::{
    first_index, indices_where, ints, kept, lemma_first_index, lemma_index_found,
    lemma_indices_step, lemma_indices_where, lemma_is_first, lemma_kept_step, lemma_no_first,
    positions_increase,
};
use crate::text::same_text;
use vstd::prelude::*;

verus! {

/// A field and the qualifier of the relation that it comes from.
#[derive(Debug)]
pub struct QualifiedField {
    pub qualifier: Option<TableReference>,
    pub field: Field,
}

/// Mathematical counterpart of [`QualifiedField`].
#[verifier::ext_equal]
pub struct QFieldView {
    pub qualifier: Option<Seq<Seq<char>>>,
    pub field: FieldView,
}

impl QualifiedField {
    /// The field as a mathematical value.
    pub open spec fn view(&self) -> QFieldView {
        QFieldView { qualifier: ref_opt(self.qualifier), field: self.field@ }
    }

    /// The qualifier and the name of the field, as a column.
    pub fn column(&self) -> (r: Column)
        ensures
            r@ == column_of(self@),
    {
        Column { relation: copy_ref_opt(&self.qualifier), name: self.field.name.clone() }
    }
}

/// A schema of qualified fields, in order.
#[derive(Debug)]
pub struct DfSchema {
    pub fields: Vec<QualifiedField>,
}

/// The column that a qualified field is referred to by.
pub open spec fn column_of(q: QFieldView) -> ColumnView {
    ColumnView { relation: q.qualifier, name: q.field.name }
}

/// Satisfied by the fields of the given name.
pub open spec fn field_named(name: Seq<char>) -> spec_fn(QFieldView) -> bool {
    |q: QFieldView| q.field.name == name
}

/// The column of a field, where it has the given name.
pub open spec fn column_if_named(name: Seq<char>) -> spec_fn(QFieldView) -> Option<ColumnView> {
    |q: QFieldView|
        if q.field.name == name {
            Some(column_of(q))
        } else {
            None
        }
}

/// The columns of the given name, in order.
pub open spec fn columns_named(s: Seq<QFieldView>, name: Seq<char>) -> Seq<ColumnView> {
    kept(s, column_if_named(name))
}

/// The fields without their qualifiers.
pub open spec fn plain_fields(s: Seq<QFieldView>) -> Seq<FieldView> {
    Seq::new(s.len(), |i: int| s[i].field)
}

/// Whether the schema holds a field with exactly this qualifier and name.
pub open spec fn has_column(s: Seq<QFieldView>, c: ColumnView) -> bool {
    exists|i: int| 0 <= i < s.len() && #[trigger] column_of(s[i]) == c
}

/// The column as the schema spells it: unchanged where it is qualified and
/// found as it is, under the qualifier of the first field of its name
/// otherwise, unqualified where there is none.
pub open spec fn resolved_column(s: Seq<QFieldView>, c: ColumnView) -> ColumnView {
    if c.relation is Some && has_column(s, c) {
        c
    } else {
        match first_index(s, field_named(c.name)) {
            Some(i) => ColumnView { relation: s[i].qualifier, name: c.name },
            None => ColumnView { relation: None, name: c.name },
        }
    }
}

/// The columns of a list as mathematical values.
pub open spec fn columns_view(s: Seq<Column>) -> Seq<ColumnView> {
    Seq::new(s.len(), |i: int| s[i]@)
}

impl DfSchema {
    /// The schema as a mathematical value.
    pub open spec fn view(&self) -> Seq<QFieldView> {
        Seq::new(self.fields@.len(), |i: int| self.fields@[i]@)
    }

    /// The columns of the given name, in order.
    pub fn columns_named(&self, name: &str) -> (r: Vec<Column>)
        ensures
            columns_view(r@) == columns_named(self@, name@),
    {
        let mut out: Vec<Column> = Vec::new();
        let mut i: usize = 0;
        assert(columns_view(out@) =~= kept(self@.take(0), column_if_named(name@)));
        while i < self.fields.len()
            invariant
                i <= self.fields@.len(),
                columns_view(out@) == kept(self@.take(i as int), column_if_named(name@)),
            decreases self.fields@.len() - i,
        {
            proof {
                lemma_kept_step(self@, column_if_named(name@), i as int);
                assert(self@[i as int] == self.fields@[i as int]@);
            }
            if same_text(self.fields[i].field.name.as_str(), name) {
                let ghost before = columns_view(out@);
                let c = self.fields[i].column();
                out.push(c);
                assert(columns_view(out@) =~= before.push(c@));
            }
            i = i + 1;
        }
        assert(self@.take(self@.len() as int) =~= self@);
        out
    }

    /// Copies of the fields without their qualifiers.
    pub fn plain_fields(&self) -> (r: Vec<Field>)
        ensures
            fields_view(r@) == plain_fields(self@),
    {
        let mut out: Vec<Field> = Vec::new();
        let mut i: usize = 0;
        while i < self.fields.len()
            invariant
                i <= self.fields@.len(),
                out@.len() == i,
                forall|j: int| 0 <= j < i ==> (#[trigger] out@[j])@ == self.fields@[j].field@,
            decreases self.fields@.len() - i,
        {
            out.push(self.fields[i].field.copy());
            i = i + 1;
        }
        assert(fields_view(out@) =~= plain_fields(self@));
        out
    }

    /// Whether the schema holds a field with exactly this qualifier and name.
    pub fn has_column(&self, column: &Column) -> (r: bool)
        ensures
            r == has_column(self@, column@),
    {
        let mut i: usize = 0;
        while i < self.fields.len()
            invariant
                i <= self.fields@.len(),
                forall|j: int| 0 <= j < i ==> #[trigger] column_of(self@[j]) != column@,
            decreases self.fields@.len() - i,
        {
            assert(self@[i as int] == self.fields@[i as int]@);
            if self.fields[i].column().same(column) {
                assert(column_of(self@[i as int]) == column@);
                return true;
            }
            i = i + 1;
        }
        false
    }

    /// Position of the first field of the given name.
    pub fn first_named(&self, name: &str) -> (r: Option<usize>)
        ensures
            match r {
                Some(i) => first_index(self@, field_named(name@)) == Some(i as int) && i
                    < self.fields@.len(),
                None => first_index(self@, field_named(name@)) is None,
            },
    {
        let ghost p = field_named(name@);
        let mut i: usize = 0;
        while i < self.fields.len()
            invariant
                i <= self.fields@.len(),
                p == field_named(name@),
                forall|j: int| 0 <= j < i ==> !p(#[trigger] self@[j]),
            decreases self.fields@.len() - i,
        {
            assert(self@[i as int] == self.fields@[i as int]@);
            if same_text(self.fields[i].field.name.as_str(), name) {
                proof {
                    lemma_is_first(self@, p, i as int);
                }
                return Some(i);
            }
            i = i + 1;
        }
        proof {
            lemma_no_first(self@, p);
        }
        None
    }

    /// The column as this schema spells it.
    pub fn resolve(&self, column: &Column) -> (r: Column)
        ensures
            r@ == resolved_column(self@, column@),
    {
        match &column.relation {
            Some(_) => {
                if self.has_column(column) {
                    return column.copy();
                }
            },
            None => {},
        }
        match self.first_named(column.name.as_str()) {
            Some(i) => {
                assert(self@[i as int] == self.fields@[i as int]@);
                Column::new(copy_ref_opt(&self.fields[i].qualifier), column.name.as_str())
            },
            None => Column::new_unqualified(column.name.as_str()),
        }
    }
}

/// A column that has been resolved against a schema stays as it is.
pub proof fn resolving_is_idempotent(s: Seq<QFieldView>, c: ColumnView)
    ensures
        resolved_column(s, resolved_column(s, c)) == resolved_column(s, c),
{
    let r = resolved_column(s, c);
    lemma_first_index(s, field_named(c.name));
    match first_index(s, field_named(c.name)) {
        Some(i) => {
            if r != c || c.relation is None {
                assert(column_of(s[i]) == r || r == c);
            }
        },
        None => {},
    }
}

// ---------------------------------------------------------------------------
// Strict lookup
// ---------------------------------------------------------------------------

/// Why a column does not resolve uniquely.
#[derive(Debug, Clone, Copy, PartialEq, Eq, Structural)]
pub enum LookupError {
    NotFound,
    Ambiguous,
}

/// Whether two paths may name the same table: they agree from the table
/// outwards, as far as both go.
pub open spec fn paths_agree(a: Seq<Seq<char>>, b: Seq<Seq<char>>) -> bool {
    forall|i: int|
        0 < i <= a.len() && i <= b.len() ==> #[trigger] a[a.len() - i] == b[b.len() - i]
}

/// Satisfied by the fields of a name under a qualifier that agrees with the
/// given one.
pub open spec fn field_under(r: Seq<Seq<char>>, name: Seq<char>) -> spec_fn(QFieldView) -> bool {
    |q: QFieldView|
        q.field.name == name && q.qualifier is Some && paths_agree(r, q.qualifier->0)
}

/// Satisfied by the unqualified fields of a name.
pub open spec fn bare_field(name: Seq<char>) -> spec_fn(QFieldView) -> bool {
    |q: QFieldView| q.field.name == name && q.qualifier is None
}

/// Position of the field that a column refers to. A qualified column takes
/// the first field under its qualifier. An unqualified one takes the only
/// field of its name, or the only unqualified one among several.
pub open spec fn looked_up_field(s: Seq<QFieldView>, c: ColumnView) -> Result<int, LookupError> {
    match c.relation {
        Some(r) => match first_index(s, field_under(r, c.name)) {
            Some(i) => Ok(i),
            None => Err(LookupError::NotFound),
        },
        None => {
            let all = indices_where(s, field_named(c.name));
            let bare = indices_where(s, bare_field(c.name));
            if all.len() == 0 {
                Err(LookupError::NotFound)
            } else if all.len() == 1 {
                Ok(all[0])
            } else if bare.len() == 1 {
                Ok(bare[0])
            } else {
                Err(LookupError::Ambiguous)
            }
        },
    }
}

fn references_agree(a: &TableReference, b: &TableReference) -> (r: bool)
    ensures
        r == paths_agree(a@, b@),
{
    let (catalog, schema, table) = parts_of(a);
    let (other_catalog, other_schema, other_table) = parts_of(b);
    let catalogs: bool = match (catalog, other_catalog) {
        (Some(x), Some(y)) => same_text(x.as_str(), y.as_str()),
        _ => true,
    };
    let schemas: bool = match (schema, other_schema) {
        (Some(x), Some(y)) => same_text(x.as_str(), y.as_str()),
        _ => true,
    };
    let r: bool = same_text(table.as_str(), other_table.as_str()) && schemas && catalogs;
    proof {
        let p = a@;
        let q = b@;
        if r {
            assert forall|i: int| 0 < i <= p.len() && i <= q.len() implies #[trigger] p[p.len() - i]
                == q[q.len() - i] by {
                assert(i == 1 || i == 2 || i == 3);
            }
        } else {
            assert(p[p.len() - 1] != q[q.len() - 1] || (p.len() >= 2 && q.len() >= 2 && p[p.len()
                - 2] != q[q.len() - 2]) || (p.len() >= 3 && q.len() >= 3 && p[p.len() - 3]
                != q[q.len() - 3]));
        }
    }
    r
}

fn parts_of(t: &TableReference) -> (r: (Option<&String>, Option<&String>, &String))
    ensures
        r.2@ == t@[t@.len() - 1],
        r.1 is Some == (t@.len() >= 2),
        r.1 matches Some(s) ==> s@ == t@[t@.len() - 2],
        r.0 is Some == (t@.len() >= 3),
        r.0 matches Some(c) ==> c@ == t@[t@.len() - 3],
        1 <= t@.len() <= 3,
{
    match t {
        TableReference::Bare { table } => (None, None, table),
        TableReference::Partial { schema, table } => (None, Some(schema), table),
        TableReference::Full { catalog, schema, table } => (Some(catalog), Some(schema), table),
    }
}

impl DfSchema {
    fn look_up_qualified(&self, relation: &TableReference, name: &str) -> (r: Option<usize>)
        ensures
            match r {
                Some(i) => first_index(self@, field_under(relation@, name@)) == Some(i as int) && i
                    < self.fields@.len(),
                None => first_index(self@, field_under(relation@, name@)) is None,
            },
    {
        let ghost p = field_under(relation@, name@);
        let mut i: usize = 0;
        while i < self.fields.len()
            invariant
                i <= self.fields@.len(),
                p == field_under(relation@, name@),
                forall|j: int| 0 <= j < i ==> !p(#[trigger] self@[j]),
            decreases self.fields@.len() - i,
        {
            assert(self@[i as int] == self.fields@[i as int]@);
            let under: bool = match &self.fields[i].qualifier {
                Some(q) => references_agree(relation, q),
                None => false,
            };
            if under && same_text(self.fields[i].field.name.as_str(), name) {
                proof {
                    lemma_is_first(self@, p, i as int);
                }
                return Some(i);
            }
            i = i + 1;
        }
        proof {
            lemma_no_first(self@, p);
        }
        None
    }

    /// Position of the field that a column refers to.
    pub fn look_up(&self, column: &Column) -> (r: Result<usize, LookupError>)
        ensures
            match r {
                Ok(i) => looked_up_field(self@, column@) == Ok::<int, LookupError>(i as int) && i
                    < self.fields@.len(),
                Err(e) => looked_up_field(self@, column@) == Err::<int, LookupError>(e),
            },
    {
        match &column.relation {
            Some(relation) => {
                return match self.look_up_qualified(relation, column.name.as_str()) {
                    Some(i) => Ok(i),
                    None => Err(LookupError::NotFound),
                };
            },
            None => {},
        }
        let ghost p = field_named(column@.name);
        let ghost q = bare_field(column@.name);
        let mut all: Vec<usize> = Vec::new();
        let mut bare: Vec<usize> = Vec::new();
        let mut i: usize = 0;
        assert(ints(all@) =~= indices_where(self@.take(0), p));
        assert(ints(bare@) =~= indices_where(self@.take(0), q));
        while i < self.fields.len()
            invariant
                i <= self.fields@.len(),
                p == field_named(column@.name),
                q == bare_field(column@.name),
                ints(all@) == indices_where(self@.take(i as int), p),
                ints(bare@) == indices_where(self@.take(i as int), q),
                forall|j: int| 0 <= j < all@.len() ==> (#[trigger] all@[j]) < self.fields@.len(),
                forall|j: int| 0 <= j < bare@.len() ==> (#[trigger] bare@[j]) < self.fields@.len(),
            decreases self.fields@.len() - i,
        {
            proof {
                lemma_indices_step(self@, p, i as int);
                lemma_indices_step(self@, q, i as int);
                assert(self@[i as int] == self.fields@[i as int]@);
            }
            if same_text(self.fields[i].field.name.as_str(), column.name.as_str()) {
                let ghost a = ints(all@);
                all.push(i);
                assert(ints(all@) =~= a.push(i as int));
                match &self.fields[i].qualifier {
                    Some(_) => {},
                    None => {
                        let ghost b = ints(bare@);
                        bare.push(i);
                        assert(ints(bare@) =~= b.push(i as int));
                    },
                }
            }
            i = i + 1;
        }
        assert(self@.take(self@.len() as int) =~= self@);
        assert(ints(all@).len() == all@.len());
        assert(ints(bare@).len() == bare@.len());
        if all.len() == 0 {
            Err(LookupError::NotFound)
        } else if all.len() == 1 {
            Ok(all[0])
        } else if bare.len() == 1 {
            Ok(bare[0])
        } else {
            Err(LookupError::Ambiguous)
        }
    }
}

/// A column that is found has the name that was asked for, and under a
/// qualifier that agrees with the one asked for.
pub proof fn lookup_keeps_name_and_qualifier(s: Seq<QFieldView>, c: ColumnView)
    ensures
        looked_up_field(s, c) matches Ok(i) ==> 0 <= i < s.len() && s[i].field.name == c.name && (
        c.relation matches Some(r) ==> s[i].qualifier matches Some(q) && paths_agree(r, q)),
{
    match c.relation {
        Some(r) => {
            lemma_first_index(s, field_under(r, c.name));
        },
        None => {
            lemma_indices_where(s, field_named(c.name));
            lemma_indices_where(s, bare_field(c.name));
        },
    }
}

/// Resolving a column keeps its name. A qualified column that the schema has
/// stays as it is, and any other takes the qualifier of the first field of
/// its name.
pub proof fn resolving_finds_the_first_of_the_name(s: Seq<QFieldView>, c: ColumnView, i: int)
    requires
        0 <= i < s.len(),
        s[i].field.name == c.name,
        forall|j: int| 0 <= j < i ==> (#[trigger] s[j]).field.name != c.name,
    ensures
        resolved_column(s, c).name == c.name,
        exists|k: int|
            0 <= k < s.len() && (#[trigger] s[k]).field.name == c.name && s[k].qualifier
                == resolved_column(s, c).relation,
        (c.relation is Some && exists|k: int|
            0 <= k < s.len() && (#[trigger] s[k]).field.name == c.name && s[k].qualifier
                == c.relation) ==> resolved_column(s, c) == c,
        c.relation is None ==> resolved_column(s, c).relation == s[i].qualifier,
        (forall|k: int|
            0 <= k < s.len() && (#[trigger] s[k]).field.name == c.name ==> s[k].qualifier
                != c.relation) ==> resolved_column(s, c).relation == s[i].qualifier,
{
    lemma_is_first(s, field_named(c.name), i);
    if c.relation is Some && has_column(s, c) {
        let k = choose|k: int| 0 <= k < s.len() && #[trigger] column_of(s[k]) == c;
        assert(s[k].field.name == c.name);
    }
    if c.relation is Some && exists|k: int|
        0 <= k < s.len() && (#[trigger] s[k]).field.name == c.name && s[k].qualifier == c.relation {
        let k = choose|k: int|
            0 <= k < s.len() && (#[trigger] s[k]).field.name == c.name && s[k].qualifier
                == c.relation;
        assert(column_of(s[k]) == c);
    }
}

/// A qualified column is found wherever some field of its name has a
/// qualifier that agrees with its own, and the first such field is taken.
pub proof fn qualified_columns_are_found(s: Seq<QFieldView>, c: ColumnView)
    requires
        c.relation is Some,
    ensures
        match looked_up_field(s, c) {
            Ok(i) => forall|j: int|
                0 <= j < i ==> !((#[trigger] s[j]).field.name == c.name && s[j].qualifier is Some
                    && paths_agree(c.relation->0, s[j].qualifier->0)),
            Err(e) => e == LookupError::NotFound && forall|j: int|
                0 <= j < s.len() ==> !((#[trigger] s[j]).field.name == c.name
                    && s[j].qualifier is Some && paths_agree(c.relation->0, s[j].qualifier->0)),
        },
{
    let p = field_under(c.relation->0, c.name);
    lemma_first_index(s, p);
    match first_index(s, p) {
        Some(i) => {
            assert forall|j: int| 0 <= j < i implies !((#[trigger] s[j]).field.name == c.name
                && s[j].qualifier is Some && paths_agree(c.relation->0, s[j].qualifier->0)) by {
                assert(!p(s[j]));
            }
        },
        None => {
            assert forall|j: int| 0 <= j < s.len() implies !((#[trigger] s[j]).field.name == c.name
                && s[j].qualifier is Some && paths_agree(c.relation->0, s[j].qualifier->0)) by {
                assert(!p(s[j]));
            }
        },
    }
}

/// An unqualified column that only one field has the name of is that field.
/// Among several it is the only unqualified one.
pub proof fn unqualified_columns_are_found(s: Seq<QFieldView>, c: ColumnView, i: int)
    requires
        c.relation is None,
        0 <= i < s.len(),
        s[i].field.name == c.name,
        (forall|j: int| 0 <= j < s.len() && j != i ==> (#[trigger] s[j]).field.name != c.name) || (
        s[i].qualifier is None && forall|j: int|
            0 <= j < s.len() && j != i && (#[trigger] s[j]).field.name == c.name ==> s[j].qualifier
                is Some),
    ensures
        looked_up_field(s, c) == Ok::<int, LookupError>(i),
{
    let all = indices_where(s, field_named(c.name));
    let bare = indices_where(s, bare_field(c.name));
    lemma_indices_where(s, field_named(c.name));
    lemma_indices_where(s, bare_field(c.name));
    lemma_index_found(s, field_named(c.name), i);
    if all.len() > 1 {
        positions_increase(s, field_named(c.name), 0, 1);
        assert(s[all[0]].field.name == c.name && s[all[1]].field.name == c.name);
        assert(all[0] != i || all[1] != i);
        assert(s[i].qualifier is None);
        lemma_index_found(s, bare_field(c.name), i);
        if bare.len() > 1 {
            positions_increase(s, bare_field(c.name), 0, 1);
            assert(s[bare[0]].field.name == c.name && s[bare[1]].field.name == c.name);
            assert(false);
        }
        assert(bare[0] == i);
    }
}

/// An unqualified column is ambiguous where two fields share its name and not
/// exactly one of them is unqualified: both qualified, or both unqualified.
pub proof fn ambiguous_columns_are_refused(s: Seq<QFieldView>, c: ColumnView, i: int, j: int)
    requires
        c.relation is None,
        0 <= i < j < s.len(),
        s[i].field.name == c.name,
        s[j].field.name == c.name,
        (s[i].qualifier is None && s[j].qualifier is None) || forall|k: int|
            0 <= k < s.len() && (#[trigger] s[k]).field.name == c.name ==> s[k].qualifier is Some,
    ensures
        looked_up_field(s, c) == Err::<int, LookupError>(LookupError::Ambiguous),
{
    let all = indices_where(s, field_named(c.name));
    let bare = indices_where(s, bare_field(c.name));
    lemma_indices_where(s, field_named(c.name));
    lemma_indices_where(s, bare_field(c.name));
    lemma_index_found(s, field_named(c.name), i);
    lemma_index_found(s, field_named(c.name), j);
    if all.len() == 1 {
        assert(all[0] == i && all[0] == j);
    }
    if bare.len() == 1 {
        assert(s[bare[0]].qualifier is None);
        lemma_index_found(s, bare_field(c.name), i);
        lemma_index_found(s, bare_field(c.name), j);
        assert(bare[0] == i && bare[0] == j);
    }
}

} // verus!
