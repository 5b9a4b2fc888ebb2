//! Planned outputs of nodes: their schemas, which of their columns are
//! materialized, and the projections that carry the system columns along.
use crate::constraints::{
    annotations_say_what_is_known, apply_constraint_metadata, column_constraints, constrained,
    table_key, table_name_from_qualifier, ColumnConstraintView, Constraints, TableConstraintView,
    FK_REF_COLUMNS_METADATA_KEY, FK_REF_TABLE_METADATA_KEY, PK_METADATA_KEY,
};
use crate::df_schema::{
    column_if_named, column_of, columns_named, columns_view, DfSchema, QFieldView, QualifiedField,
};
use crate::plan::{
    copy_ref_opt, dotted, exprs_view, ref_opt, same_ref_opt, sorts_view, Column, ColumnView, Expr,
    ExprView, SortExpr, SortView, TableReference,
};
use crate::schema::{fields_view, Field, FieldView};
use crate::seqs::{
    first_index, join_all, joined, kept, kept_items_come_from_the_list, kept_items_keep_their_order,
    lemma_first_index, lemma_is_first, lemma_kept_step, lemma_no_first, no_kept_item_is_lost,
    texts_view,
};
use crate::table::{
    is_system_column, is_system_name, ACTIVATOR_COL_NAME, QUALIFIER_METADATA_KEY, ROW_ID_COL_NAME,
};
use crate::text::{decimal, decimal_text, same_text};
use vstd::prelude::*;
use vstd::string::*;

verus! {

// ---------------------------------------------------------------------------
// Materialization flags
// ---------------------------------------------------------------------------

/// The flags of a list as mathematical values.
pub open spec fn flags_view(s: Seq<(Field, bool)>) -> Seq<(FieldView, bool)> {
    Seq::new(s.len(), |i: int| (s[i].0@, s[i].1))
}

/// Satisfied by the flag of the given field.
pub open spec fn flag_of(f: FieldView) -> spec_fn((FieldView, bool)) -> bool {
    |e: (FieldView, bool)| e.0 == f
}

/// The flags with that of `f` set: in place where it has one, behind all
/// others where it has none.
pub open spec fn with_flag(s: Seq<(FieldView, bool)>, f: FieldView, b: bool) -> Seq<
    (FieldView, bool),
> {
    match first_index(s, flag_of(f)) {
        Some(i) => s.update(i, (f, b)),
        None => s.push((f, b)),
    }
}

/// The flag of a field; a field without one is materialized.
pub open spec fn flag_or_true(s: Seq<(FieldView, bool)>, f: FieldView) -> bool {
    match first_index(s, flag_of(f)) {
        Some(i) => s[i].1,
        None => true,
    }
}

fn find_flag(flags: &Vec<(Field, bool)>, field: &Field) -> (r: Option<usize>)
    ensures
        match r {
            Some(i) => first_index(flags_view(flags@), flag_of(field@)) == Some(i as int) && i
                < flags@.len(),
            None => first_index(flags_view(flags@), flag_of(field@)) is None,
        },
{
    let ghost views = flags_view(flags@);
    let ghost p = flag_of(field@);
    let mut i: usize = 0;
    while i < flags.len()
        invariant
            i <= flags@.len(),
            views == flags_view(flags@),
            p == flag_of(field@),
            forall|j: int| 0 <= j < i ==> !p(#[trigger] views[j]),
        decreases flags@.len() - i,
    {
        assert(views[i as int].0 == flags@[i as int].0@);
        if flags[i].0.same(field) {
            proof {
                lemma_is_first(views, p, i as int);
            }
            return Some(i);
        }
        i = i + 1;
    }
    proof {
        lemma_no_first(views, p);
    }
    None
}

/// Sets the flag of a field.
pub fn set_flag(flags: &mut Vec<(Field, bool)>, field: Field, value: bool)
    ensures
        flags_view(final(flags)@) == with_flag(flags_view(old(flags)@), field@, value),
{
    let ghost before = flags_view(flags@);
    match find_flag(flags, &field) {
        Some(i) => {
            flags.set(i, (field, value));
            assert(flags_view(flags@) =~= before.update(i as int, (field@, value)));
        },
        None => {
            flags.push((field, value));
            assert(flags_view(flags@) =~= before.push((field@, value)));
        },
    }
}

// ---------------------------------------------------------------------------
// Normalization
// ---------------------------------------------------------------------------

/// A field with its qualifier and its key constraints as annotations. System
/// columns and unqualified fields stay as they are.
pub open spec fn annotated_field(
    store: Map<Seq<char>, TableConstraintView>,
    q: QFieldView,
) -> FieldView {
    match q.qualifier {
        Some(r) if !is_system_name(q.field.name) => FieldView {
            metadata: constrained(
                q.field.metadata.insert(QUALIFIER_METADATA_KEY@, dotted(r)),
                store,
                table_key(dotted(r)),
                q.field.name,
            ),
            ..q.field
        },
        _ => q.field,
    }
}

/// A field with its qualifier and its key constraints as annotations.
pub fn field_with_qualifier_metadata(
    store: &Constraints,
    field: &Field,
    qualifier: &Option<TableReference>,
) -> (r: Field)
    ensures
        r@ == annotated_field(
            store@,
            QFieldView { qualifier: ref_opt(*qualifier), field: field@ },
        ),
{
    if is_system_column(field.name.as_str()) {
        return field.copy();
    }
    match qualifier {
        Some(q) => {
            let text: String = q.to_text();
            let table: String = table_name_from_qualifier(text.as_str());
            let metadata = field.metadata.copy().with(QUALIFIER_METADATA_KEY.to_owned(), text);
            let metadata = apply_constraint_metadata(
                metadata,
                store,
                table.as_str(),
                field.name.as_str(),
            );
            field.copy().with_metadata(metadata)
        },
        None => field.copy(),
    }
}

/// The projection that keeps every field under its qualifier and name.
pub open spec fn identity_projection(s: Seq<QFieldView>) -> Seq<ExprView> {
    Seq::new(
        s.len(),
        |i: int|
            ExprView::Alias {
                expr: Box::new(ExprView::Column(column_of(s[i]))),
                relation: s[i].qualifier,
                name: s[i].field.name,
            },
    )
}

/// The projection that keeps every field under its qualifier and name.
pub fn build_identity_projection(schema: &DfSchema) -> (r: Vec<Expr>)
    ensures
        exprs_view(r@) == identity_projection(schema@),
{
    let mut out: Vec<Expr> = Vec::new();
    let mut i: usize = 0;
    while i < schema.fields.len()
        invariant
            i <= schema.fields@.len(),
            out@.len() == i,
            forall|j: int|
                0 <= j < i ==> (#[trigger] out@[j])@ == identity_projection(schema@)[j],
        decreases schema.fields@.len() - i,
    {
        let q: &QualifiedField = &schema.fields[i];
        let e = Expr::Alias {
            expr: Box::new(Expr::Column(q.column())),
            relation: copy_ref_opt(&q.qualifier),
            name: q.field.name.clone(),
        };
        assert(schema@[i as int] == q@);
        assert(e@ == identity_projection(schema@)[i as int]) by {
            reveal_with_fuel(Expr::view, 2);
        }
        out.push(e);
        i = i + 1;
    }
    assert(exprs_view(out@) =~= identity_projection(schema@));
    out
}

fn is_identity_expr(expr: &Expr, q: &QualifiedField) -> (r: bool)
    ensures
        r == (expr@ == ExprView::Alias {
            expr: Box::new(ExprView::Column(column_of(q@))),
            relation: q@.qualifier,
            name: q@.field.name,
        }),
{
    proof {
        reveal_with_fuel(Expr::view, 2);
    }
    match expr {
        Expr::Alias { expr: inner, relation, name } => {
            let column = match &**inner {
                Expr::Column(c) => c,
                _ => return false,
            };
            column.same(&q.column()) && same_ref_opt(relation, &q.qualifier) && same_text(
                name.as_str(),
                q.field.name.as_str(),
            )
        },
        _ => false,
    }
}

/// Whether a projection is the one that normalization builds.
pub fn already_normalized(projection: &Vec<Expr>, schema: &DfSchema) -> (r: bool)
    ensures
        r == (exprs_view(projection@) == identity_projection(schema@)),
{
    if projection.len() != schema.fields.len() {
        assert(exprs_view(projection@).len() != identity_projection(schema@).len());
        return false;
    }
    let mut i: usize = 0;
    while i < projection.len()
        invariant
            i <= projection@.len(),
            projection@.len() == schema.fields@.len(),
            forall|j: int|
                0 <= j < i ==> (#[trigger] projection@[j])@ == identity_projection(schema@)[j],
        decreases projection@.len() - i,
    {
        assert(schema@[i as int] == schema.fields@[i as int]@);
        if !is_identity_expr(&projection[i], &schema.fields[i]) {
            assert(exprs_view(projection@)[i as int] != identity_projection(schema@)[i as int]);
            return false;
        }
        i = i + 1;
    }
    assert(exprs_view(projection@) =~= identity_projection(schema@));
    true
}

/// The flags of the first `n` fields after normalization: each field keeps
/// its flag, under the field with its annotations.
pub open spec fn normalized_flags(
    store: Map<Seq<char>, TableConstraintView>,
    s: Seq<QFieldView>,
    flags: Seq<(FieldView, bool)>,
) -> Seq<(FieldView, bool)>
    decreases s.len(),
{
    if s.len() == 0 {
        Seq::empty()
    } else {
        with_flag(
            normalized_flags(store, s.drop_last(), flags),
            annotated_field(store, s.last()),
            flag_or_true(flags, s.last().field),
        )
    }
}

/// The same flag for every field, under the field with its annotations.
pub open spec fn uniform_flags(
    store: Map<Seq<char>, TableConstraintView>,
    s: Seq<QFieldView>,
    value: bool,
) -> Seq<(FieldView, bool)>
    decreases s.len(),
{
    if s.len() == 0 {
        Seq::empty()
    } else {
        with_flag(
            uniform_flags(store, s.drop_last(), value),
            annotated_field(store, s.last()),
            value,
        )
    }
}

/// The same flag for every field, under the field as it is.
pub open spec fn plain_flags(s: Seq<QFieldView>, value: bool) -> Seq<(FieldView, bool)>
    decreases s.len(),
{
    if s.len() == 0 {
        Seq::empty()
    } else {
        with_flag(plain_flags(s.drop_last(), value), s.last().field, value)
    }
}

/// The planned output of a node: its schema and which of its columns are
/// materialized.
#[derive(Debug)]
pub struct HintDF {
    pub schema: DfSchema,
    pub should_materialize: Vec<(Field, bool)>,
}

impl HintDF {
    /// The flags as a mathematical value.
    pub open spec fn flags(&self) -> Seq<(FieldView, bool)> {
        flags_view(self.should_materialize@)
    }

    /// An output whose columns are materialized as `flags` says of them.
    pub fn new(store: &Constraints, schema: DfSchema, flags: &Vec<(Field, bool)>) -> (r: HintDF)
        ensures
            r.schema == schema,
            r.flags() == normalized_flags(store@, schema@, flags_view(flags@)),
    {
        let mut out: Vec<(Field, bool)> = Vec::new();
        let mut i: usize = 0;
        assert(schema@.take(0) =~= Seq::<QFieldView>::empty());
        assert(flags_view(out@) =~= Seq::<(FieldView, bool)>::empty());
        while i < schema.fields.len()
            invariant
                i <= schema.fields@.len(),
                flags_view(out@) == normalized_flags(
                    store@,
                    schema@.take(i as int),
                    flags_view(flags@),
                ),
            decreases schema.fields@.len() - i,
        {
            proof {
                assert(schema@.take(i + 1).drop_last() =~= schema@.take(i as int));
                assert(schema@.take(i + 1).last() == schema.fields@[i as int]@);
            }
            let q: &QualifiedField = &schema.fields[i];
            let value: bool = match find_flag(flags, &q.field) {
                Some(k) => flags[k].1,
                None => true,
            };
            let field: Field = field_with_qualifier_metadata(store, &q.field, &q.qualifier);
            set_flag(&mut out, field, value);
            i = i + 1;
        }
        assert(schema@.take(schema@.len() as int) =~= schema@);
        HintDF { schema, should_materialize: out }
    }

    fn with_mat_flag(store: &Constraints, schema: DfSchema, value: bool) -> (r: HintDF)
        ensures
            r.schema == schema,
            r.flags() == uniform_flags(store@, schema@, value),
    {
        let mut out: Vec<(Field, bool)> = Vec::new();
        let mut i: usize = 0;
        assert(schema@.take(0) =~= Seq::<QFieldView>::empty());
        assert(flags_view(out@) =~= Seq::<(FieldView, bool)>::empty());
        while i < schema.fields.len()
            invariant
                i <= schema.fields@.len(),
                flags_view(out@) == uniform_flags(store@, schema@.take(i as int), value),
            decreases schema.fields@.len() - i,
        {
            proof {
                assert(schema@.take(i + 1).drop_last() =~= schema@.take(i as int));
                assert(schema@.take(i + 1).last() == schema.fields@[i as int]@);
            }
            let q: &QualifiedField = &schema.fields[i];
            let field: Field = field_with_qualifier_metadata(store, &q.field, &q.qualifier);
            set_flag(&mut out, field, value);
            i = i + 1;
        }
        assert(schema@.take(schema@.len() as int) =~= schema@);
        HintDF { schema, should_materialize: out }
    }

    /// An output whose columns are all materialized.
    pub fn new_materialized(store: &Constraints, schema: DfSchema) -> (r: HintDF)
        ensures
            r.schema == schema,
            r.flags() == uniform_flags(store@, schema@, true),
    {
        HintDF::with_mat_flag(store, schema, true)
    }

    /// An output whose columns are all virtual.
    pub fn new_virtual(store: &Constraints, schema: DfSchema) -> (r: HintDF)
        ensures
            r.schema == schema,
            r.flags() == uniform_flags(store@, schema@, false),
    {
        HintDF::with_mat_flag(store, schema, false)
    }

    /// Whether a column is materialized, where the output has it.
    pub fn should_materialize(&self, field: &Field) -> (r: Option<bool>)
        ensures
            r == (match first_index(self.flags(), flag_of(field@)) {
                Some(i) => Some(self.flags()[i].1),
                None => None,
            }),
    {
        match find_flag(&self.should_materialize, field) {
            Some(i) => Some(self.should_materialize[i].1),
            None => None,
        }
    }

    /// The same output with every column virtual.
    pub fn as_virtual_view(self) -> (r: HintDF)
        ensures
            r.schema == self.schema,
            r.flags() == plain_flags(self.schema@, false),
    {
        let schema = self.schema;
        let mut out: Vec<(Field, bool)> = Vec::new();
        let mut i: usize = 0;
        assert(schema@.take(0) =~= Seq::<QFieldView>::empty());
        assert(flags_view(out@) =~= Seq::<(FieldView, bool)>::empty());
        while i < schema.fields.len()
            invariant
                i <= schema.fields@.len(),
                flags_view(out@) == plain_flags(schema@.take(i as int), false),
            decreases schema.fields@.len() - i,
        {
            proof {
                assert(schema@.take(i + 1).drop_last() =~= schema@.take(i as int));
                assert(schema@.take(i + 1).last() == schema.fields@[i as int]@);
            }
            set_flag(&mut out, schema.fields[i].field.copy(), false);
            i = i + 1;
        }
        assert(schema@.take(schema@.len() as int) =~= schema@);
        HintDF { schema, should_materialize: out }
    }
}

/// A planned output as a mathematical value.
#[verifier::ext_equal]
pub struct HintView {
    pub schema: Seq<QFieldView>,
    pub flags: Seq<(FieldView, bool)>,
}

/// A planned output as a mathematical value.
pub open spec fn hint_view(h: HintDF) -> HintView {
    HintView { schema: h.schema@, flags: h.flags() }
}

/// An equal planned output.
pub fn copy_hint(h: &HintDF) -> (r: HintDF)
    ensures
        hint_view(r) == hint_view(*h),
{
    let mut fields: Vec<QualifiedField> = Vec::new();
    let mut i: usize = 0;
    while i < h.schema.fields.len()
        invariant
            i <= h.schema.fields@.len(),
            fields@.len() == i,
            forall|j: int| 0 <= j < i ==> (#[trigger] fields@[j])@ == h.schema.fields@[j]@,
        decreases h.schema.fields@.len() - i,
    {
        let q: &QualifiedField = &h.schema.fields[i];
        fields.push(
            QualifiedField { qualifier: copy_ref_opt(&q.qualifier), field: q.field.copy() },
        );
        i = i + 1;
    }
    let mut flags: Vec<(Field, bool)> = Vec::new();
    let mut k: usize = 0;
    while k < h.should_materialize.len()
        invariant
            k <= h.should_materialize@.len(),
            flags@.len() == k,
            forall|j: int|
                0 <= j < k ==> (#[trigger] flags@[j]).0@ == h.should_materialize@[j].0@
                    && flags@[j].1 == h.should_materialize@[j].1,
        decreases h.should_materialize@.len() - k,
    {
        flags.push((h.should_materialize[k].0.copy(), h.should_materialize[k].1));
        k = k + 1;
    }
    let r = HintDF { schema: DfSchema { fields }, should_materialize: flags };
    assert(r.schema@ =~= h.schema@);
    assert(r.flags() =~= h.flags());
    r
}

/// Looking up a flag after one was set.
pub proof fn lemma_flag_after_set(s: Seq<(FieldView, bool)>, f: FieldView, b: bool, g: FieldView)
    ensures
        flag_or_true(with_flag(s, f, b), g) == (if g == f {
            b
        } else {
            flag_or_true(s, g)
        }),
{
    let t = with_flag(s, f, b);
    lemma_first_index(s, flag_of(f));
    lemma_first_index(s, flag_of(g));
    lemma_first_index(t, flag_of(g));
    match first_index(s, flag_of(f)) {
        Some(i) => {
            if g == f {
                assert forall|j: int| 0 <= j < i implies !flag_of(g)(#[trigger] t[j]) by {
                    assert(t[j] == s[j]);
                }
                lemma_is_first(t, flag_of(g), i);
            } else {
                match first_index(s, flag_of(g)) {
                    Some(k) => {
                        assert(t[k] == s[k]);
                        assert forall|j: int| 0 <= j < k implies !flag_of(g)(#[trigger] t[j]) by {
                            assert(!flag_of(g)(s[j]));
                        }
                        lemma_is_first(t, flag_of(g), k);
                    },
                    None => {
                        assert forall|j: int| 0 <= j < t.len() implies !flag_of(g)(
                            #[trigger] t[j],
                        ) by {
                            assert(!flag_of(g)(s[j]));
                        }
                        lemma_no_first(t, flag_of(g));
                    },
                }
            }
        },
        None => {
            if g == f {
                assert forall|j: int| 0 <= j < s.len() implies !flag_of(g)(#[trigger] t[j]) by {
                    assert(t[j] == s[j]);
                }
                lemma_is_first(t, flag_of(g), s.len() as int);
            } else {
                match first_index(s, flag_of(g)) {
                    Some(k) => {
                        assert(t[k] == s[k]);
                        assert forall|j: int| 0 <= j < k implies !flag_of(g)(#[trigger] t[j]) by {
                            assert(!flag_of(g)(s[j]));
                        }
                        lemma_is_first(t, flag_of(g), k);
                    },
                    None => {
                        assert forall|j: int| 0 <= j < t.len() implies !flag_of(g)(
                            #[trigger] t[j],
                        ) by {
                            if j < s.len() {
                                assert(!flag_of(g)(s[j]));
                            }
                        }
                        lemma_no_first(t, flag_of(g));
                    },
                }
            }
        },
    }
}

/// Whether every field that normalization annotates anew is materialized.
pub open spec fn annotated_are_materialized(
    store: Map<Seq<char>, TableConstraintView>,
    s: Seq<QFieldView>,
    flags: Seq<(FieldView, bool)>,
) -> bool {
    forall|i: int|
        0 <= i < s.len() ==> annotated_field(store, #[trigger] s[i]) == s[i].field || flag_or_true(
            flags,
            s[i].field,
        )
}

/// The flag that normalizing the first `n` fields leaves under `g`.
spec fn flag_left(
    store: Map<Seq<char>, TableConstraintView>,
    s: Seq<QFieldView>,
    flags: Seq<(FieldView, bool)>,
    g: FieldView,
    n: int,
) -> bool
    decreases n,
{
    if n <= 0 {
        true
    } else if annotated_field(store, s[n - 1]) == g {
        flag_or_true(flags, s[n - 1].field)
    } else {
        flag_left(store, s, flags, g, n - 1)
    }
}

proof fn lemma_flag_left(
    store: Map<Seq<char>, TableConstraintView>,
    s: Seq<QFieldView>,
    flags: Seq<(FieldView, bool)>,
    g: FieldView,
    n: int,
)
    requires
        0 <= n <= s.len(),
    ensures
        flag_or_true(normalized_flags(store, s.take(n), flags), g) == flag_left(
            store,
            s,
            flags,
            g,
            n,
        ),
    decreases n,
{
    if n == 0 {
        lemma_no_first(Seq::<(FieldView, bool)>::empty(), flag_of(g));
    } else {
        assert(s.take(n).drop_last() =~= s.take(n - 1));
        assert(s.take(n).last() == s[n - 1]);
        lemma_flag_left(store, s, flags, g, n - 1);
        lemma_flag_after_set(
            normalized_flags(store, s.take(n - 1), flags),
            annotated_field(store, s[n - 1]),
            flag_or_true(flags, s[n - 1].field),
            g,
        );
    }
}

/// A field that was materialized is found materialized again.
proof fn lemma_materialized_stays(
    store: Map<Seq<char>, TableConstraintView>,
    s: Seq<QFieldView>,
    flags: Seq<(FieldView, bool)>,
    g: FieldView,
    n: int,
)
    requires
        0 <= n <= s.len(),
        annotated_are_materialized(store, s, flags),
        flag_or_true(flags, g),
    ensures
        flag_left(store, s, flags, g, n),
    decreases n,
{
    if n > 0 {
        let q = s[n - 1];
        assert(annotated_field(store, q) == q.field || flag_or_true(flags, q.field));
        lemma_materialized_stays(store, s, flags, g, n - 1);
    }
}

/// Looking the fields up in the normalized flags leaves the same flag.
proof fn lemma_flag_left_again(
    store: Map<Seq<char>, TableConstraintView>,
    s: Seq<QFieldView>,
    flags: Seq<(FieldView, bool)>,
    g: FieldView,
    n: int,
)
    requires
        0 <= n <= s.len(),
        annotated_are_materialized(store, s, flags),
        flag_left(store, s, flags, g, n) == flag_left(store, s, flags, g, s.len() as int),
    ensures
        flag_left(store, s, normalized_flags(store, s, flags), g, n) == flag_left(
            store,
            s,
            flags,
            g,
            n,
        ),
    decreases n,
{
    if n > 0 {
        let q = s[n - 1];
        if annotated_field(store, q) == g {
            assert(s.take(s.len() as int) =~= s);
            lemma_flag_left(store, s, flags, q.field, s.len() as int);
            if q.field != g {
                assert(flag_or_true(flags, q.field));
                lemma_materialized_stays(store, s, flags, q.field, s.len() as int);
            }
        } else {
            lemma_flag_left_again(store, s, flags, g, n - 1);
        }
    }
}

/// Whether two lists flag the same fields in the same order, each once.
spec fn same_keys(x: Seq<(FieldView, bool)>, y: Seq<(FieldView, bool)>) -> bool {
    &&& x.len() == y.len()
    &&& forall|i: int| 0 <= i < x.len() ==> (#[trigger] x[i]).0 == y[i].0
    &&& forall|i: int, j: int|
        0 <= i < j < x.len() ==> (#[trigger] x[i]).0 != (#[trigger] x[j]).0
}

proof fn lemma_set_keeps_keys(
    x: Seq<(FieldView, bool)>,
    y: Seq<(FieldView, bool)>,
    f: FieldView,
    a: bool,
    b: bool,
)
    requires
        same_keys(x, y),
    ensures
        same_keys(with_flag(x, f, a), with_flag(y, f, b)),
{
    let p = flag_of(f);
    lemma_first_index(x, p);
    match first_index(x, p) {
        Some(i) => {
            assert forall|j: int| 0 <= j < i implies !p(#[trigger] y[j]) by {
                assert(!p(x[j]));
            }
            assert(x[i].0 == y[i].0);
            lemma_is_first(y, p, i);
        },
        None => {
            assert forall|j: int| 0 <= j < y.len() implies !p(#[trigger] y[j]) by {
                assert(!p(x[j]));
            }
            lemma_no_first(y, p);
        },
    }
}

proof fn lemma_normalized_keys(
    store: Map<Seq<char>, TableConstraintView>,
    s: Seq<QFieldView>,
    a: Seq<(FieldView, bool)>,
    b: Seq<(FieldView, bool)>,
)
    ensures
        same_keys(normalized_flags(store, s, a), normalized_flags(store, s, b)),
    decreases s.len(),
{
    if s.len() > 0 {
        lemma_normalized_keys(store, s.drop_last(), a, b);
        lemma_set_keeps_keys(
            normalized_flags(store, s.drop_last(), a),
            normalized_flags(store, s.drop_last(), b),
            annotated_field(store, s.last()),
            flag_or_true(a, s.last().field),
            flag_or_true(b, s.last().field),
        );
    }
}

/// Normalizing an output a second time changes nothing, where the columns
/// that get annotations are materialized. A virtual column that does is
/// looked up without them the second time.
pub proof fn normalization_is_idempotent(
    store: Map<Seq<char>, TableConstraintView>,
    s: Seq<QFieldView>,
    flags: Seq<(FieldView, bool)>,
)
    requires
        annotated_are_materialized(store, s, flags),
    ensures
        normalized_flags(store, s, normalized_flags(store, s, flags)) == normalized_flags(
            store,
            s,
            flags,
        ),
{
    let n = s.len() as int;
    let once = normalized_flags(store, s, flags);
    let twice = normalized_flags(store, s, once);
    lemma_normalized_keys(store, s, flags, flags);
    lemma_normalized_keys(store, s, once, flags);
    assert(s.take(n) =~= s);
    assert forall|i: int| 0 <= i < twice.len() implies twice[i] == once[i] by {
        let g = once[i].0;
        assert(twice[i].0 == g);
        lemma_is_first(once, flag_of(g), i);
        lemma_is_first(twice, flag_of(g), i);
        lemma_flag_left(store, s, flags, g, n);
        lemma_flag_left(store, s, once, g, n);
        lemma_flag_left_again(store, s, flags, g, n);
    }
    assert(twice =~= once);
}

/// Whether an annotation is one that normalization writes.
pub open spec fn is_written_key(key: Seq<char>) -> bool {
    ||| key == QUALIFIER_METADATA_KEY@
    ||| key == PK_METADATA_KEY@
    ||| key == FK_REF_TABLE_METADATA_KEY@
    ||| key == FK_REF_COLUMNS_METADATA_KEY@
}

/// Whether two fields differ at most in annotations that normalization
/// writes.
pub open spec fn same_but_written(a: FieldView, b: FieldView) -> bool {
    &&& a.name == b.name
    &&& a.data_type == b.data_type
    &&& a.nullable == b.nullable
    &&& forall|key: Seq<char>|
        !is_written_key(key) ==> #[trigger] a.metadata.contains_key(key) == b.metadata.contains_key(
            key,
        )
    &&& forall|key: Seq<char>|
        !is_written_key(key) && b.metadata.contains_key(key) ==> #[trigger] a.metadata[key]
            == b.metadata[key]
}

/// Whether no two fields of a schema are the same once they are annotated.
pub open spec fn annotated_are_distinct(
    store: Map<Seq<char>, TableConstraintView>,
    s: Seq<QFieldView>,
) -> bool {
    forall|i: int, j: int|
        0 <= i < j < s.len() ==> annotated_field(store, #[trigger] s[i]) != annotated_field(
            store,
            #[trigger] s[j],
        )
}

/// Normalization keeps the columns of an output in their order, each with its
/// name, type and nullability, its other annotations and its flag.
pub proof fn normalization_keeps_columns(
    store: Map<Seq<char>, TableConstraintView>,
    s: Seq<QFieldView>,
    flags: Seq<(FieldView, bool)>,
)
    requires
        annotated_are_distinct(store, s),
    ensures
        normalized_flags(store, s, flags).len() == s.len(),
        forall|i: int|
            0 <= i < s.len() ==> {
                let entry = #[trigger] normalized_flags(store, s, flags)[i];
                &&& entry.0 == annotated_field(store, s[i])
                &&& same_but_written(entry.0, s[i].field)
                &&& entry.1 == flag_or_true(flags, s[i].field)
            },
    decreases s.len(),
{
    if s.len() > 0 {
        let t = s.drop_last();
        let before = normalized_flags(store, t, flags);
        let p = flag_of(annotated_field(store, s.last()));
        assert(s.last() == s[s.len() - 1]);
        assert forall|i: int, j: int| 0 <= i < j < t.len() implies annotated_field(
            store,
            #[trigger] t[i],
        ) != annotated_field(store, #[trigger] t[j]) by {
            assert(t[i] == s[i] && t[j] == s[j]);
        }
        normalization_keeps_columns(store, t, flags);
        assert forall|i: int| 0 <= i < before.len() implies !p(#[trigger] before[i]) by {
            assert(t[i] == s[i]);
            assert(annotated_field(store, s[i]) != annotated_field(store, s[s.len() - 1]));
        }
        lemma_no_first(before, p);
        assert forall|i: int| 0 <= i < s.len() implies {
            let entry = #[trigger] normalized_flags(store, s, flags)[i];
            &&& entry.0 == annotated_field(store, s[i])
            &&& same_but_written(entry.0, s[i].field)
            &&& entry.1 == flag_or_true(flags, s[i].field)
        } by {
            if i < t.len() {
                assert(t[i] == s[i]);
                assert(normalized_flags(store, s, flags)[i] == before[i]);
            }
        }
    }
}

proof fn lemma_set_keeps_uniform(s: Seq<(FieldView, bool)>, f: FieldView, value: bool)
    requires
        forall|i: int| 0 <= i < s.len() ==> (#[trigger] s[i]).1 == value,
    ensures
        forall|i: int|
            0 <= i < with_flag(s, f, value).len() ==> (#[trigger] with_flag(s, f, value)[i]).1
                == value,
{
    lemma_first_index(s, flag_of(f));
}

/// A materialized output has no virtual column, and a virtual output no
/// materialized one.
pub proof fn uniform_flags_agree(
    store: Map<Seq<char>, TableConstraintView>,
    s: Seq<QFieldView>,
    value: bool,
)
    ensures
        forall|i: int|
            0 <= i < uniform_flags(store, s, value).len() ==> (#[trigger] uniform_flags(
                store,
                s,
                value,
            )[i]).1 == value,
    decreases s.len(),
{
    if s.len() > 0 {
        uniform_flags_agree(store, s.drop_last(), value);
        lemma_set_keeps_uniform(
            uniform_flags(store, s.drop_last(), value),
            annotated_field(store, s.last()),
            value,
        );
    }
}

// ---------------------------------------------------------------------------
// Display
// ---------------------------------------------------------------------------

/// The name of a flagged field, where its flag has the given value.
pub open spec fn name_if_flagged(value: bool) -> spec_fn((FieldView, bool)) -> Option<Seq<char>> {
    |e: (FieldView, bool)|
        if e.1 == value {
            Some(e.0.name)
        } else {
            None
        }
}

/// An output as text: how many columns it has, and which are materialized
/// and which virtual.
pub open spec fn hint_text(flags: Seq<(FieldView, bool)>) -> Seq<char> {
    "HintDF with "@ + decimal(flags.len()) + " columns\nMaterialized: ("@ + joined(
        kept(flags, name_if_flagged(true)),
        ","@,
    ) + ")\nVirtual: ("@ + joined(kept(flags, name_if_flagged(false)), ","@) + ")"@
}

impl HintDF {
    fn names_flagged(&self, value: bool) -> (r: Vec<String>)
        ensures
            texts_view(r@) == kept(self.flags(), name_if_flagged(value)),
    {
        let mut out: Vec<String> = Vec::new();
        let mut i: usize = 0;
        assert(texts_view(out@) =~= kept(self.flags().take(0), name_if_flagged(value)));
        while i < self.should_materialize.len()
            invariant
                i <= self.should_materialize@.len(),
                texts_view(out@) == kept(self.flags().take(i as int), name_if_flagged(value)),
            decreases self.should_materialize@.len() - i,
        {
            proof {
                lemma_kept_step(self.flags(), name_if_flagged(value), i as int);
            }
            if self.should_materialize[i].1 == value {
                let ghost before = texts_view(out@);
                let name: String = self.should_materialize[i].0.name.clone();
                out.push(name);
                assert(texts_view(out@) =~= before.push(name@));
            }
            i = i + 1;
        }
        assert(self.flags().take(self.flags().len() as int) =~= self.flags());
        out
    }

    /// The output as text.
    pub fn to_text(&self) -> (r: String)
        ensures
            r@ == hint_text(self.flags()),
    {
        let materialized: String = join_all(&self.names_flagged(true), ",");
        let virtual_cols: String = join_all(&self.names_flagged(false), ",");
        let mut out: String = "HintDF with ".to_owned();
        out.append(decimal_text(self.should_materialize.len()).as_str());
        out.append(" columns\nMaterialized: (");
        out.append(materialized.as_str());
        out.append(")\nVirtual: (");
        out.append(virtual_cols.as_str());
        out.append(")");
        out
    }
}

// ---------------------------------------------------------------------------
// System columns in projections
// ---------------------------------------------------------------------------

/// The sort keys that put rows in the order of their row numbers.
pub open spec fn row_id_sort(s: Seq<QFieldView>) -> Seq<SortView> {
    let columns = columns_named(s, ROW_ID_COL_NAME@);
    Seq::new(
        columns.len(),
        |i: int|
            SortView { expr: ExprView::Column(columns[i]), asc: true, nulls_first: true },
    )
}

/// The sort keys that put rows in the order of their row numbers; none where
/// there is no row-number column, and then the order stays as it is.
pub fn row_id_sort_exprs(schema: &DfSchema) -> (r: Vec<SortExpr>)
    ensures
        sorts_view(r@) == row_id_sort(schema@),
{
    let columns: Vec<Column> = schema.columns_named(ROW_ID_COL_NAME);
    let mut out: Vec<SortExpr> = Vec::new();
    let mut i: usize = 0;
    while i < columns.len()
        invariant
            i <= columns@.len(),
            columns_view(columns@) == columns_named(schema@, ROW_ID_COL_NAME@),
            out@.len() == i,
            forall|j: int| 0 <= j < i ==> (#[trigger] out@[j])@ == row_id_sort(schema@)[j],
        decreases columns@.len() - i,
    {
        assert(columns_view(columns@)[i as int] == columns@[i as int]@);
        let key = SortExpr {
            expr: Expr::Column(columns[i].copy()),
            asc: true,
            nulls_first: true,
        };
        assert(key@ == row_id_sort(schema@)[i as int]) by {
            reveal_with_fuel(SortExpr::view, 2);
            reveal_with_fuel(Expr::view, 2);
        }
        out.push(key);
        i = i + 1;
    }
    assert(sorts_view(out@) =~= row_id_sort(schema@));
    out
}

/// Satisfied by the qualified columns.
pub open spec fn is_qualified() -> spec_fn(ColumnView) -> bool {
    |c: ColumnView| c.relation is Some
}

/// The row-number column to carry along: the first qualified one, else the
/// only one.
pub open spec fn row_id_choice(s: Seq<QFieldView>) -> Option<ColumnView> {
    let columns = columns_named(s, ROW_ID_COL_NAME@);
    match first_index(columns, is_qualified()) {
        Some(i) => Some(columns[i]),
        None => if columns.len() == 1 {
            Some(columns[0])
        } else {
            None
        },
    }
}

fn choose_row_id(schema: &DfSchema) -> (r: Option<Column>)
    ensures
        match r {
            Some(c) => row_id_choice(schema@) == Some(c@),
            None => row_id_choice(schema@) is None,
        },
{
    let columns: Vec<Column> = schema.columns_named(ROW_ID_COL_NAME);
    let ghost views = columns_view(columns@);
    let ghost p = is_qualified();
    let mut i: usize = 0;
    while i < columns.len()
        invariant
            i <= columns@.len(),
            views == columns_view(columns@),
            views == columns_named(schema@, ROW_ID_COL_NAME@),
            p == is_qualified(),
            forall|j: int| 0 <= j < i ==> !p(#[trigger] views[j]),
        decreases columns@.len() - i,
    {
        assert(views[i as int] == columns@[i as int]@);
        match &columns[i].relation {
            Some(_) => {
                proof {
                    lemma_is_first(views, p, i as int);
                }
                return Some(columns[i].copy());
            },
            None => {},
        }
        i = i + 1;
    }
    proof {
        lemma_no_first(views, p);
    }
    if columns.len() == 1 {
        assert(views[0] == columns@[0]@);
        Some(columns[0].copy())
    } else {
        None
    }
}

/// Satisfied by references to the activator column.
pub open spec fn is_activator_expr() -> spec_fn(ExprView) -> bool {
    |e: ExprView|
        match e {
            ExprView::Column(c) => c.name == ACTIVATOR_COL_NAME@,
            _ => false,
        }
}

/// Satisfied by references to exactly the given column.
pub open spec fn is_column_expr(c: ColumnView) -> spec_fn(ExprView) -> bool {
    |e: ExprView| e == ExprView::Column(c)
}

/// The expressions with the row-number column: in front of the activator
/// where there is one, else behind all others; unchanged where it is there
/// already, or where there is none to choose.
pub open spec fn with_row_id(s: Seq<QFieldView>, exprs: Seq<ExprView>) -> Seq<ExprView> {
    match row_id_choice(s) {
        None => exprs,
        Some(c) => if first_index(exprs, is_column_expr(c)) is Some {
            exprs
        } else {
            match first_index(exprs, is_activator_expr()) {
                Some(i) => exprs.insert(i, ExprView::Column(c)),
                None => exprs.push(ExprView::Column(c)),
            }
        },
    }
}

fn find_activator_expr(exprs: &Vec<Expr>) -> (r: Option<usize>)
    ensures
        match r {
            Some(i) => first_index(exprs_view(exprs@), is_activator_expr()) == Some(i as int) && i
                < exprs@.len(),
            None => first_index(exprs_view(exprs@), is_activator_expr()) is None,
        },
{
    let ghost views = exprs_view(exprs@);
    let ghost p = is_activator_expr();
    let mut i: usize = 0;
    while i < exprs.len()
        invariant
            i <= exprs@.len(),
            views == exprs_view(exprs@),
            p == is_activator_expr(),
            forall|j: int| 0 <= j < i ==> !p(#[trigger] views[j]),
        decreases exprs@.len() - i,
    {
        assert(views[i as int] == exprs@[i as int]@);
        let found: bool = match &exprs[i] {
            Expr::Column(c) => same_text(c.name.as_str(), ACTIVATOR_COL_NAME),
            _ => false,
        };
        assert(found == p(views[i as int]));
        if found {
            proof {
                lemma_is_first(views, p, i as int);
            }
            return Some(i);
        }
        i = i + 1;
    }
    proof {
        lemma_no_first(views, p);
    }
    None
}

fn holds_column(exprs: &Vec<Expr>, column: &Column) -> (r: bool)
    ensures
        r == (first_index(exprs_view(exprs@), is_column_expr(column@)) is Some),
{
    let ghost views = exprs_view(exprs@);
    let ghost p = is_column_expr(column@);
    let mut i: usize = 0;
    while i < exprs.len()
        invariant
            i <= exprs@.len(),
            views == exprs_view(exprs@),
            p == is_column_expr(column@),
            forall|j: int| 0 <= j < i ==> !p(#[trigger] views[j]),
        decreases exprs@.len() - i,
    {
        assert(views[i as int] == exprs@[i as int]@);
        let found: bool = match &exprs[i] {
            Expr::Column(c) => c.same(column),
            _ => false,
        };
        assert(found == p(views[i as int]));
        if found {
            proof {
                lemma_is_first(views, p, i as int);
            }
            return true;
        }
        i = i + 1;
    }
    proof {
        lemma_no_first(views, p);
    }
    false
}

/// Adds the row-number column of the input to a projection.
pub fn append_row_id_expr_if_present(schema: &DfSchema, exprs: &mut Vec<Expr>)
    ensures
        exprs_view(final(exprs)@) == with_row_id(schema@, exprs_view(old(exprs)@)),
{
    let ghost before = exprs_view(exprs@);
    match choose_row_id(schema) {
        None => {},
        Some(column) => {
            if !holds_column(exprs, &column) {
                let e = Expr::Column(column);
                assert(e@ == ExprView::Column(column@));
                match find_activator_expr(exprs) {
                    Some(i) => {
                        exprs.insert(i, e);
                        assert(exprs_view(exprs@) =~= before.insert(i as int, e@));
                    },
                    None => {
                        exprs.push(e);
                        assert(exprs_view(exprs@) =~= before.push(e@));
                    },
                }
            }
        },
    }
}

/// References to the given columns.
pub open spec fn column_exprs(s: Seq<ColumnView>) -> Seq<ExprView> {
    Seq::new(s.len(), |i: int| ExprView::Column(s[i]))
}

/// The expressions with the activator columns behind them; unchanged where
/// they hold an activator already.
pub open spec fn with_activators(s: Seq<QFieldView>, exprs: Seq<ExprView>) -> Seq<ExprView> {
    if first_index(exprs, is_activator_expr()) is Some {
        exprs
    } else {
        exprs + column_exprs(columns_named(s, ACTIVATOR_COL_NAME@))
    }
}

/// Adds the activator columns of the input to a projection.
pub fn append_activator_exprs_if_present(schema: &DfSchema, exprs: &mut Vec<Expr>)
    ensures
        exprs_view(final(exprs)@) == with_activators(schema@, exprs_view(old(exprs)@)),
{
    match find_activator_expr(exprs) {
        Some(_) => return,
        None => {},
    }
    let columns: Vec<Column> = schema.columns_named(ACTIVATOR_COL_NAME);
    let ghost base = exprs_view(exprs@);
    let ghost added = column_exprs(columns_view(columns@));
    let mut i: usize = 0;
    assert(exprs_view(exprs@) =~= base + added.take(0));
    while i < columns.len()
        invariant
            i <= columns@.len(),
            added == column_exprs(columns_view(columns@)),
            exprs_view(exprs@) == base + added.take(i as int),
        decreases columns@.len() - i,
    {
        let ghost before = exprs_view(exprs@);
        let e = Expr::Column(columns[i].copy());
        assert(e@ == added[i as int]);
        exprs.push(e);
        assert(exprs_view(exprs@) =~= before.push(e@));
        assert(exprs_view(exprs@) =~= base + added.take(i + 1));
        i = i + 1;
    }
    assert(added.take(added.len() as int) =~= added);
}

/// The expressions with both kinds of system column.
pub open spec fn with_system_columns(s: Seq<QFieldView>, exprs: Seq<ExprView>) -> Seq<ExprView> {
    with_row_id(s, with_activators(s, exprs))
}

/// The projection of one expression over an input, with the input's system
/// columns.
pub fn project_with_system_columns(schema: &DfSchema, expr: Expr) -> (r: Vec<Expr>)
    ensures
        exprs_view(r@) == with_system_columns(schema@, seq![expr@]),
{
    let mut exprs: Vec<Expr> = Vec::new();
    exprs.push(expr);
    assert(exprs_view(exprs@) =~= seq![expr@]);
    append_activator_exprs_if_present(schema, &mut exprs);
    append_row_id_expr_if_present(schema, &mut exprs);
    exprs
}

/// The field of an entry, where it has the given name.
pub open spec fn plain_field_if_named(name: Seq<char>) -> spec_fn(QFieldView) -> Option<FieldView> {
    |q: QFieldView|
        if q.field.name == name {
            Some(q.field)
        } else {
            None
        }
}

/// The shape of an expression over an input: its own field, then the row
/// numbers and the activators of the input.
pub open spec fn shape_with_system(s: Seq<QFieldView>, f: FieldView) -> Seq<FieldView> {
    seq![f] + kept(s, plain_field_if_named(ROW_ID_COL_NAME@)) + kept(
        s,
        plain_field_if_named(ACTIVATOR_COL_NAME@),
    )
}

fn push_fields_named(out: &mut Vec<Field>, schema: &DfSchema, name: &str)
    ensures
        fields_view(final(out)@) == fields_view(old(out)@) + kept(
            schema@,
            plain_field_if_named(name@),
        ),
{
    let ghost base = fields_view(out@);
    let ghost f = plain_field_if_named(name@);
    let mut i: usize = 0;
    assert(fields_view(out@) =~= base + kept(schema@.take(0), f));
    while i < schema.fields.len()
        invariant
            i <= schema.fields@.len(),
            f == plain_field_if_named(name@),
            fields_view(out@) == base + kept(schema@.take(i as int), f),
        decreases schema.fields@.len() - i,
    {
        proof {
            lemma_kept_step(schema@, f, i as int);
            assert(schema@[i as int] == schema.fields@[i as int]@);
        }
        if same_text(schema.fields[i].field.name.as_str(), name) {
            let ghost before = fields_view(out@);
            let c: Field = schema.fields[i].field.copy();
            out.push(c);
            assert(fields_view(out@) =~= before.push(c@));
            assert(before.push(c@) =~= base + kept(schema@.take(i as int), f).push(c@));
        }
        i = i + 1;
    }
    assert(schema@.take(schema@.len() as int) =~= schema@);
}

/// The shape of an expression over an input.
pub fn shape_with_system_columns(schema: &DfSchema, field: Field) -> (r: Vec<Field>)
    ensures
        fields_view(r@) == shape_with_system(schema@, field@),
{
    let mut out: Vec<Field> = Vec::new();
    out.push(field);
    assert(fields_view(out@) =~= seq![field@]);
    push_fields_named(&mut out, schema, ROW_ID_COL_NAME);
    push_fields_named(&mut out, schema, ACTIVATOR_COL_NAME);
    out
}

/// Adding the system columns to a projection that has been given them
/// already changes nothing.
pub proof fn system_columns_are_added_once(s: Seq<QFieldView>, exprs: Seq<ExprView>)
    ensures
        with_system_columns(s, with_system_columns(s, exprs)) == with_system_columns(s, exprs),
{
    let activators = columns_named(s, ACTIVATOR_COL_NAME@);
    let a = with_activators(s, exprs);
    let b = with_row_id(s, a);
    let act = is_activator_expr();
    lemma_first_index(exprs, act);
    lemma_first_index(a, act);
    lemma_first_index(b, act);
    // An activator that was there before the row number is still there.
    if first_index(a, act) is Some {
        let i = first_index(a, act)->0;
        match row_id_choice(s) {
            Some(c) if first_index(a, is_column_expr(c)) is None => {
                assert(b[i + 1] == a[i]);
            },
            _ => {},
        }
        assert(first_index(b, act) is Some);
    } else {
        lemma_named(s, ACTIVATOR_COL_NAME@);
        if activators.len() > 0 {
            assert(a[exprs.len() as int] == ExprView::Column(activators[0]));
            assert(act(a[exprs.len() as int]));
        }
        assert(activators =~= Seq::<ColumnView>::empty());
        assert(a =~= exprs);
    }
    assert(with_activators(s, b) =~= b);
    match row_id_choice(s) {
        Some(c) => {
            let p = is_column_expr(c);
            lemma_first_index(a, p);
            lemma_first_index(b, p);
            if first_index(a, p) is None {
                match first_index(a, act) {
                    Some(i) => {
                        assert(b[i] == ExprView::Column(c));
                    },
                    None => {
                        assert(b[a.len() as int] == ExprView::Column(c));
                    },
                }
            }
            assert(first_index(b, p) is Some);
        },
        None => {},
    }
}

/// The columns found by name have that name.
proof fn lemma_named(s: Seq<QFieldView>, name: Seq<char>)
    ensures
        forall|i: int|
            0 <= i < columns_named(s, name).len() ==> (#[trigger] columns_named(s, name)[i]).name
                == name,
    decreases s.len(),
{
    if s.len() > 0 {
        lemma_named(s.drop_last(), name);
        let before = columns_named(s.drop_last(), name);
        let all = columns_named(s, name);
        assert forall|i: int| 0 <= i < all.len() implies (#[trigger] all[i]).name == name by {
            if i < before.len() {
                assert(all[i] == before[i]);
            }
        }
    }
}

// ---------------------------------------------------------------------------
// Dropping the row numbers
// ---------------------------------------------------------------------------

/// The name of a field, where it is not the row number.
pub open spec fn name_but_row_id() -> spec_fn(QFieldView) -> Option<Seq<char>> {
    |q: QFieldView|
        if q.field.name == ROW_ID_COL_NAME@ {
            None
        } else {
            Some(q.field.name)
        }
}

/// The names of the fields other than the row number, where the output has a
/// row number to drop.
pub fn names_without_row_id(hint: &HintDF) -> (r: Option<Vec<String>>)
    ensures
        match r {
            Some(names) => columns_named(hint.schema@, ROW_ID_COL_NAME@).len() > 0 && texts_view(
                names@,
            ) == kept(hint.schema@, name_but_row_id()),
            None => columns_named(hint.schema@, ROW_ID_COL_NAME@).len() == 0,
        },
{
    let row_ids: Vec<Column> = hint.schema.columns_named(ROW_ID_COL_NAME);
    assert(columns_view(row_ids@).len() == row_ids@.len());
    if row_ids.len() == 0 {
        return None;
    }
    let mut out: Vec<String> = Vec::new();
    let mut i: usize = 0;
    assert(texts_view(out@) =~= kept(hint.schema@.take(0), name_but_row_id()));
    while i < hint.schema.fields.len()
        invariant
            i <= hint.schema.fields@.len(),
            texts_view(out@) == kept(hint.schema@.take(i as int), name_but_row_id()),
        decreases hint.schema.fields@.len() - i,
    {
        proof {
            lemma_kept_step(hint.schema@, name_but_row_id(), i as int);
            assert(hint.schema@[i as int] == hint.schema.fields@[i as int]@);
        }
        if !same_text(hint.schema.fields[i].field.name.as_str(), ROW_ID_COL_NAME) {
            let ghost before = texts_view(out@);
            let name: String = hint.schema.fields[i].field.name.clone();
            out.push(name);
            assert(texts_view(out@) =~= before.push(name@));
        }
        i = i + 1;
    }
    assert(hint.schema@.take(hint.schema@.len() as int) =~= hint.schema@);
    Some(out)
}

/// Satisfied by the flags of the fields of the given name.
pub open spec fn flag_named(name: Seq<char>) -> spec_fn((FieldView, bool)) -> bool {
    |e: (FieldView, bool)| e.0.name == name
}

/// The flags of the fields of a schema, each that of the first flagged field
/// of its name; a field without one is materialized.
pub open spec fn flags_by_name(flags: Seq<(FieldView, bool)>, s: Seq<QFieldView>) -> Seq<
    (FieldView, bool),
>
    decreases s.len(),
{
    if s.len() == 0 {
        Seq::empty()
    } else {
        let f = s.last().field;
        with_flag(
            flags_by_name(flags, s.drop_last()),
            f,
            match first_index(flags, flag_named(f.name)) {
                Some(i) => flags[i].1,
                None => true,
            },
        )
    }
}

fn flag_by_name(flags: &Vec<(Field, bool)>, name: &str) -> (r: bool)
    ensures
        r == (match first_index(flags_view(flags@), flag_named(name@)) {
            Some(i) => flags_view(flags@)[i].1,
            None => true,
        }),
{
    let ghost views = flags_view(flags@);
    let ghost p = flag_named(name@);
    let mut i: usize = 0;
    while i < flags.len()
        invariant
            i <= flags@.len(),
            views == flags_view(flags@),
            p == flag_named(name@),
            forall|j: int| 0 <= j < i ==> !p(#[trigger] views[j]),
        decreases flags@.len() - i,
    {
        assert(views[i as int].0 == flags@[i as int].0@);
        if same_text(flags[i].0.name.as_str(), name) {
            proof {
                lemma_is_first(views, p, i as int);
            }
            return flags[i].1;
        }
        i = i + 1;
    }
    proof {
        lemma_no_first(views, p);
    }
    true
}

/// The output without its row number, whose projection onto the other
/// columns has the schema `projected`. An output without a row number stays
/// as it is.
pub fn strip_row_id_from_hint(store: &Constraints, hint: HintDF, projected: DfSchema) -> (r: HintDF)
    ensures
        columns_named(hint.schema@, ROW_ID_COL_NAME@).len() == 0 ==> r == hint,
        columns_named(hint.schema@, ROW_ID_COL_NAME@).len() > 0 ==> r.schema == projected
            && r.flags() == normalized_flags(
            store@,
            projected@,
            flags_by_name(hint.flags(), projected@),
        ),
{
    let row_ids: Vec<Column> = hint.schema.columns_named(ROW_ID_COL_NAME);
    assert(columns_view(row_ids@).len() == row_ids@.len());
    if row_ids.len() == 0 {
        return hint;
    }
    let mut flags: Vec<(Field, bool)> = Vec::new();
    let mut i: usize = 0;
    assert(projected@.take(0) =~= Seq::<QFieldView>::empty());
    assert(flags_view(flags@) =~= Seq::<(FieldView, bool)>::empty());
    while i < projected.fields.len()
        invariant
            i <= projected.fields@.len(),
            flags_view(flags@) == flags_by_name(hint.flags(), projected@.take(i as int)),
        decreases projected.fields@.len() - i,
    {
        proof {
            assert(projected@.take(i + 1).drop_last() =~= projected@.take(i as int));
            assert(projected@.take(i + 1).last() == projected.fields@[i as int]@);
        }
        let field: &Field = &projected.fields[i].field;
        let value: bool = flag_by_name(&hint.should_materialize, field.name.as_str());
        set_flag(&mut flags, field.copy(), value);
        i = i + 1;
    }
    assert(projected@.take(projected@.len() as int) =~= projected@);
    HintDF::new(store, projected, &flags)
}

/// The flags by which every column but the activator and the row number is
/// materialized.
pub open spec fn data_flags(s: Seq<QFieldView>) -> Seq<(FieldView, bool)>
    decreases s.len(),
{
    if s.len() == 0 {
        Seq::empty()
    } else {
        let f = s.last().field;
        with_flag(
            data_flags(s.drop_last()),
            f,
            f.name != ACTIVATOR_COL_NAME@ && f.name != ROW_ID_COL_NAME@,
        )
    }
}

/// An output whose data columns are materialized.
pub fn data_hint(store: &Constraints, schema: DfSchema) -> (r: HintDF)
    ensures
        r.schema == schema,
        r.flags() == normalized_flags(store@, schema@, data_flags(schema@)),
{
    let mut flags: Vec<(Field, bool)> = Vec::new();
    let mut i: usize = 0;
    assert(schema@.take(0) =~= Seq::<QFieldView>::empty());
    assert(flags_view(flags@) =~= Seq::<(FieldView, bool)>::empty());
    while i < schema.fields.len()
        invariant
            i <= schema.fields@.len(),
            flags_view(flags@) == data_flags(schema@.take(i as int)),
        decreases schema.fields@.len() - i,
    {
        proof {
            assert(schema@.take(i + 1).drop_last() =~= schema@.take(i as int));
            assert(schema@.take(i + 1).last() == schema.fields@[i as int]@);
        }
        let field: Field = schema.fields[i].field.copy();
        let value: bool = !same_text(field.name.as_str(), ACTIVATOR_COL_NAME) && !same_text(
            field.name.as_str(),
            ROW_ID_COL_NAME,
        );
        set_flag(&mut flags, field, value);
        i = i + 1;
    }
    assert(schema@.take(schema@.len() as int) =~= schema@);
    HintDF::new(store, schema, &flags)
}

// ---------------------------------------------------------------------------
// What the flags and projections are for
// ---------------------------------------------------------------------------

/// Whether a list of flags holds a flag for a field.
pub open spec fn has_flag(flags: Seq<(FieldView, bool)>, f: FieldView, b: bool) -> bool {
    exists|k: int| 0 <= k < flags.len() && #[trigger] flags[k] == (f, b)
}

proof fn lemma_set_is_held(s: Seq<(FieldView, bool)>, f: FieldView, b: bool)
    ensures
        has_flag(with_flag(s, f, b), f, b),
        forall|g: FieldView, c: bool|
            g != f && has_flag(s, g, c) ==> has_flag(with_flag(s, f, b), g, c),
{
    let t = with_flag(s, f, b);
    lemma_first_index(s, flag_of(f));
    match first_index(s, flag_of(f)) {
        Some(i) => {
            assert(t[i] == (f, b));
        },
        None => {
            assert(t[s.len() as int] == (f, b));
        },
    }
    assert forall|g: FieldView, c: bool| g != f && has_flag(s, g, c) implies has_flag(t, g, c) by {
        let k = choose|k: int| 0 <= k < s.len() && #[trigger] s[k] == (g, c);
        assert(t[k] == (g, c));
    }
}

/// No column of an output is left without a flag: a materialized output
/// materializes every one of its columns, and a virtual output none.
pub proof fn no_column_is_left_without_a_flag(
    store: Map<Seq<char>, TableConstraintView>,
    s: Seq<QFieldView>,
    value: bool,
    i: int,
)
    requires
        0 <= i < s.len(),
    ensures
        has_flag(uniform_flags(store, s, value), annotated_field(store, s[i]), value),
        has_flag(plain_flags(s, value), s[i].field, value),
        forall|k: int|
            0 <= k < plain_flags(s, value).len() ==> (#[trigger] plain_flags(s, value)[k]).1
                == value,
    decreases s.len(),
{
    let t = s.drop_last();
    lemma_set_is_held(uniform_flags(store, t, value), annotated_field(store, s.last()), value);
    lemma_set_is_held(plain_flags(t, value), s.last().field, value);
    lemma_plain_flags_agree(s, value);
    if i < t.len() {
        assert(s[i] == t[i]);
        no_column_is_left_without_a_flag(store, t, value, i);
    }
}

proof fn lemma_plain_flags_agree(s: Seq<QFieldView>, value: bool)
    ensures
        forall|k: int|
            0 <= k < plain_flags(s, value).len() ==> (#[trigger] plain_flags(s, value)[k]).1
                == value,
    decreases s.len(),
{
    if s.len() > 0 {
        lemma_plain_flags_agree(s.drop_last(), value);
        lemma_set_keeps_uniform(plain_flags(s.drop_last(), value), s.last().field, value);
    }
}

/// Annotations tell where a column is from: a qualified data column carries
/// its qualifier, and the activator and the row number carry nothing new.
pub proof fn columns_carry_their_qualifier(
    store: Map<Seq<char>, TableConstraintView>,
    q: QFieldView,
)
    ensures
        q.field.name == "__activator__"@ || q.field.name == "__row_id__"@ || q.qualifier is None
            ==> annotated_field(store, q) == q.field,
        q.field.name != "__activator__"@ && q.field.name != "__row_id__"@ ==> (
        q.qualifier matches Some(r) ==> annotated_field(store, q).metadata.contains_key(
            "tt.qualifier"@,
        ) && annotated_field(store, q).metadata["tt.qualifier"@] == dotted(r)),
        same_but_written(annotated_field(store, q), q.field),
{
    match q.qualifier {
        Some(r) => {
            annotations_say_what_is_known(
                q.field.metadata.insert(QUALIFIER_METADATA_KEY@, dotted(r)),
                store,
                table_key(dotted(r)),
                q.field.name,
            );
            reveal_strlit("tt.qualifier");
            reveal_strlit("tt.pk");
            reveal_strlit("tt.fk.ref_table");
            reveal_strlit("tt.fk.ref_columns");
            assert("tt.qualifier"@.len() == 12);
            assert("tt.pk"@.len() == 5);
            assert("tt.fk.ref_table"@.len() == 15);
            assert("tt.fk.ref_columns"@.len() == 17);
        },
        None => {},
    }
}

/// The data columns of an output are materialized, and its activator and row
/// number are not.
pub proof fn only_data_columns_are_materialized(s: Seq<QFieldView>, i: int)
    requires
        0 <= i < s.len(),
    ensures
        s[i].field.name == "__activator__"@ || s[i].field.name == "__row_id__"@ ==> !flag_or_true(
            data_flags(s),
            s[i].field,
        ),
        s[i].field.name != "__activator__"@ && s[i].field.name != "__row_id__"@ ==> flag_or_true(
            data_flags(s),
            s[i].field,
        ),
    decreases s.len(),
{
    let t = s.drop_last();
    let f = s.last().field;
    let b = f.name != ACTIVATOR_COL_NAME@ && f.name != ROW_ID_COL_NAME@;
    lemma_flag_after_set(data_flags(t), f, b, s[i].field);
    if i < t.len() {
        assert(s[i] == t[i]);
        only_data_columns_are_materialized(t, i);
    }
}

/// A column that stays when the row number is dropped keeps its flag: that of
/// the columns of its name, where they agree, and a column without one is
/// materialized.
pub proof fn dropping_the_row_number_keeps_flags(
    flags: Seq<(FieldView, bool)>,
    s: Seq<QFieldView>,
    i: int,
    b: bool,
)
    requires
        0 <= i < s.len(),
        forall|k: int|
            0 <= k < flags.len() && (#[trigger] flags[k]).0.name == s[i].field.name ==> flags[k].1
                == b,
        b || exists|k: int|
            0 <= k < flags.len() && (#[trigger] flags[k]).0.name == s[i].field.name,
    ensures
        flag_or_true(flags_by_name(flags, s), s[i].field) == b,
    decreases s.len(),
{
    let t = s.drop_last();
    let f = s.last().field;
    let p = flag_named(f.name);
    lemma_first_index(flags, p);
    let value = match first_index(flags, p) {
        Some(k) => flags[k].1,
        None => true,
    };
    lemma_flag_after_set(flags_by_name(flags, t), f, value, s[i].field);
    if i < t.len() {
        assert(s[i] == t[i]);
        dropping_the_row_number_keeps_flags(flags, t, i, b);
        if f == s[i].field && !b {
            let k = choose|k: int|
                0 <= k < flags.len() && (#[trigger] flags[k]).0.name == s[i].field.name;
            assert(p(flags[k]));
        }
    } else if !b {
        let k = choose|k: int|
            0 <= k < flags.len() && (#[trigger] flags[k]).0.name == s[i].field.name;
        assert(p(flags[k]));
    }
}

/// The names that remain are those of the other columns, in their order, and
/// all of them.
pub proof fn dropping_the_row_number_keeps_names(s: Seq<QFieldView>, i: int)
    requires
        0 <= i < s.len(),
    ensures
        s[i].field.name != "__row_id__"@ ==> kept(s, name_but_row_id()).contains(s[i].field.name),
        !kept(s, name_but_row_id()).contains("__row_id__"@),
{
    let names = kept(s, name_but_row_id());
    if s[i].field.name != "__row_id__"@ {
        let k = no_kept_item_is_lost(s, name_but_row_id(), i);
        assert(names[k] == s[i].field.name);
    }
    if names.contains("__row_id__"@) {
        let k = choose|k: int| 0 <= k < names.len() && names[k] == "__row_id__"@;
        let j = kept_items_come_from_the_list(s, name_but_row_id(), k);
        assert(false);
    }
}

/// Whether an expression refers to a column of a schema that has the given
/// name.
pub open spec fn refers_to(s: Seq<QFieldView>, e: ExprView, name: Seq<char>) -> bool {
    exists|i: int|
        0 <= i < s.len() && (#[trigger] s[i]).field.name == name && e == ExprView::Column(
            ColumnView { relation: s[i].qualifier, name },
        )
}

proof fn lemma_named_are_there(s: Seq<QFieldView>, name: Seq<char>, k: int)
    requires
        0 <= k < columns_named(s, name).len(),
    ensures
        refers_to(s, ExprView::Column(columns_named(s, name)[k]), name),
{
    let i = kept_items_come_from_the_list(s, column_if_named(name), k);
    assert(s[i].field.name == name);
}

/// Carrying the row number along adds at most one expression, and that one
/// refers to a row-number column of the input; it stands in front of the
/// activator, or last where there is none, and the other expressions stay.
pub proof fn the_row_number_is_all_that_is_added(s: Seq<QFieldView>, exprs: Seq<ExprView>)
    ensures
        with_row_id(s, exprs) == exprs || exists|at: int|
            0 <= at < with_row_id(s, exprs).len() && with_row_id(s, exprs).remove(at) == exprs
                && refers_to(s, #[trigger] with_row_id(s, exprs)[at], "__row_id__"@) && (at
                == exprs.len() || (exprs[at] matches ExprView::Column(c) && c.name
                == "__activator__"@)),
{
    let r = with_row_id(s, exprs);
    let columns = columns_named(s, ROW_ID_COL_NAME@);
    lemma_first_index(columns, is_qualified());
    lemma_first_index(exprs, is_activator_expr());
    match row_id_choice(s) {
        Some(c) => {
            let k = match first_index(columns, is_qualified()) {
                Some(i) => i,
                None => 0,
            };
            lemma_named_are_there(s, ROW_ID_COL_NAME@, k);
            if first_index(exprs, is_column_expr(c)) is None {
                let at = match first_index(exprs, is_activator_expr()) {
                    Some(i) => i,
                    None => exprs.len() as int,
                };
                assert(r[at] == ExprView::Column(c));
                assert(r.remove(at) =~= exprs);
            }
        },
        None => {},
    }
}

/// An input with a single row-number column has it carried along.
pub proof fn a_single_row_number_is_carried_along(
    s: Seq<QFieldView>,
    exprs: Seq<ExprView>,
    i: int,
)
    requires
        0 <= i < s.len(),
        s[i].field.name == "__row_id__"@,
        forall|j: int|
            0 <= j < s.len() && j != i ==> (#[trigger] s[j]).field.name != "__row_id__"@,
    ensures
        with_row_id(s, exprs).contains(
            ExprView::Column(ColumnView { relation: s[i].qualifier, name: "__row_id__"@ }),
        ),
{
    let columns = columns_named(s, ROW_ID_COL_NAME@);
    let want = ColumnView { relation: s[i].qualifier, name: "__row_id__"@ };
    let k = no_kept_item_is_lost(s, column_if_named(ROW_ID_COL_NAME@), i);
    if columns.len() > 1 {
        let r = kept_items_keep_their_order(s, column_if_named(ROW_ID_COL_NAME@), 0, 1);
        assert(s[r.0].field.name == "__row_id__"@ && s[r.1].field.name == "__row_id__"@);
        assert(false);
    }
    assert(columns[0] == want);
    lemma_first_index(columns, is_qualified());
    assert(row_id_choice(s) == Some(want));
    let e = ExprView::Column(want);
    let p = is_column_expr(want);
    lemma_first_index(exprs, p);
    lemma_first_index(exprs, is_activator_expr());
    let r = with_row_id(s, exprs);
    match first_index(exprs, p) {
        Some(j) => {
            assert(r[j] == e);
        },
        None => match first_index(exprs, is_activator_expr()) {
            Some(j) => {
                assert(r[j] == e);
            },
            None => {
                assert(r[exprs.len() as int] == e);
            },
        },
    }
}

/// Where several row-number columns are qualified, or one is qualified among
/// others, the one that is carried along is qualified.
pub proof fn qualified_row_numbers_go_first(s: Seq<QFieldView>, i: int)
    requires
        0 <= i < s.len(),
        s[i].field.name == "__row_id__"@,
        s[i].qualifier is Some,
    ensures
        row_id_choice(s) matches Some(c) && c.relation is Some && c.name == "__row_id__"@,
{
    let columns = columns_named(s, ROW_ID_COL_NAME@);
    let k = no_kept_item_is_lost(s, column_if_named(ROW_ID_COL_NAME@), i);
    lemma_first_index(columns, is_qualified());
    lemma_named(s, ROW_ID_COL_NAME@);
    assert(is_qualified()(columns[k]));
}

/// Carrying the activator along keeps the expressions in front; what is added
/// refers to activators of the input, and to every one of them.
pub proof fn the_activators_are_all_that_is_added(s: Seq<QFieldView>, exprs: Seq<ExprView>)
    ensures
        exprs.len() <= with_activators(s, exprs).len(),
        with_activators(s, exprs).take(exprs.len() as int) == exprs,
        forall|k: int|
            exprs.len() <= k < with_activators(s, exprs).len() ==> refers_to(
                s,
                #[trigger] with_activators(s, exprs)[k],
                "__activator__"@,
            ),
        (forall|k: int|
            0 <= k < exprs.len() ==> !((#[trigger] exprs[k]) matches ExprView::Column(c) && c.name
                == "__activator__"@)) ==> forall|i: int|
            0 <= i < s.len() && (#[trigger] s[i]).field.name == "__activator__"@
                ==> with_activators(s, exprs).contains(
                ExprView::Column(ColumnView { relation: s[i].qualifier, name: "__activator__"@ }),
            ),
{
    let r = with_activators(s, exprs);
    let columns = columns_named(s, ACTIVATOR_COL_NAME@);
    lemma_first_index(exprs, is_activator_expr());
    assert(r.take(exprs.len() as int) =~= exprs);
    assert forall|k: int| exprs.len() <= k < r.len() implies refers_to(
        s,
        #[trigger] r[k],
        "__activator__"@,
    ) by {
        lemma_named_are_there(s, ACTIVATOR_COL_NAME@, k - exprs.len());
    }
    if first_index(exprs, is_activator_expr()) is None {
        assert forall|i: int|
            0 <= i < s.len() && (#[trigger] s[i]).field.name == "__activator__"@ implies r.contains(
            ExprView::Column(ColumnView { relation: s[i].qualifier, name: "__activator__"@ }),
        ) by {
            let k = no_kept_item_is_lost(s, column_if_named(ACTIVATOR_COL_NAME@), i);
            assert(r[exprs.len() + k] == ExprView::Column(columns[k]));
        }
    }
}

/// Rows are put in the order of their numbers, the smallest first, by every
/// row-number column of the input and by nothing else.
pub proof fn rows_are_ordered_by_their_numbers(s: Seq<QFieldView>)
    ensures
        forall|k: int|
            0 <= k < row_id_sort(s).len() ==> {
                &&& (#[trigger] row_id_sort(s)[k]).asc
                &&& row_id_sort(s)[k].nulls_first
                &&& refers_to(s, row_id_sort(s)[k].expr, "__row_id__"@)
            },
        forall|i: int|
            0 <= i < s.len() && (#[trigger] s[i]).field.name == "__row_id__"@ ==> exists|k: int|
                0 <= k < row_id_sort(s).len() && (#[trigger] row_id_sort(s)[k]).expr
                    == ExprView::Column(
                    ColumnView { relation: s[i].qualifier, name: "__row_id__"@ },
                ),
{
    let columns = columns_named(s, ROW_ID_COL_NAME@);
    assert forall|k: int| 0 <= k < row_id_sort(s).len() implies {
        &&& (#[trigger] row_id_sort(s)[k]).asc
        &&& row_id_sort(s)[k].nulls_first
        &&& refers_to(s, row_id_sort(s)[k].expr, "__row_id__"@)
    } by {
        lemma_named_are_there(s, ROW_ID_COL_NAME@, k);
    }
    assert forall|i: int|
        0 <= i < s.len() && (#[trigger] s[i]).field.name == "__row_id__"@ implies exists|k: int|
        0 <= k < row_id_sort(s).len() && (#[trigger] row_id_sort(s)[k]).expr == ExprView::Column(
            ColumnView { relation: s[i].qualifier, name: "__row_id__"@ },
        ) by {
        let k = no_kept_item_is_lost(s, column_if_named(ROW_ID_COL_NAME@), i);
        assert(row_id_sort(s)[k].expr == ExprView::Column(columns[k]));
    }
}

/// The shape of an expression over an input is its own field first, and then
/// nothing but system columns of the input, none of which is missing.
pub proof fn shapes_hold_the_field_and_the_system_columns(s: Seq<QFieldView>, f: FieldView)
    ensures
        shape_with_system(s, f)[0] == f,
        forall|k: int|
            1 <= k < shape_with_system(s, f).len() ==> {
                let g = #[trigger] shape_with_system(s, f)[k];
                (g.name == "__row_id__"@ || g.name == "__activator__"@) && exists|i: int|
                    0 <= i < s.len() && (#[trigger] s[i]).field == g
            },
        forall|i: int|
            0 <= i < s.len() && ((#[trigger] s[i]).field.name == "__row_id__"@
                || s[i].field.name == "__activator__"@) ==> shape_with_system(s, f).contains(
                s[i].field,
            ),
        forall|k: int, l: int|
            1 <= k < l < shape_with_system(s, f).len() && (#[trigger] shape_with_system(
                s,
                f,
            )[k]).name == "__activator__"@ ==> (#[trigger] shape_with_system(s, f)[l]).name
                == "__activator__"@,
{
    let row = plain_field_if_named(ROW_ID_COL_NAME@);
    let act = plain_field_if_named(ACTIVATOR_COL_NAME@);
    let rows = kept(s, row);
    let acts = kept(s, act);
    let r = shape_with_system(s, f);
    reveal_strlit("__row_id__");
    reveal_strlit("__activator__");
    assert("__row_id__"@.len() != "__activator__"@.len());
    assert forall|k: int| 0 <= k < rows.len() implies (#[trigger] rows[k]).name == "__row_id__"@
        && exists|i: int| 0 <= i < s.len() && (#[trigger] s[i]).field == rows[k] by {
        let i = kept_items_come_from_the_list(s, row, k);
        assert(s[i].field == rows[k]);
    }
    assert forall|k: int| 0 <= k < acts.len() implies (#[trigger] acts[k]).name == "__activator__"@
        && exists|i: int| 0 <= i < s.len() && (#[trigger] s[i]).field == acts[k] by {
        let i = kept_items_come_from_the_list(s, act, k);
        assert(s[i].field == acts[k]);
    }
    assert forall|k: int| 1 <= k < r.len() implies {
        let g = #[trigger] r[k];
        (g.name == "__row_id__"@ || g.name == "__activator__"@) && exists|i: int|
            0 <= i < s.len() && (#[trigger] s[i]).field == g
    } by {
        if k - 1 < rows.len() {
            assert(r[k] == rows[k - 1]);
        } else {
            assert(r[k] == acts[k - 1 - rows.len()]);
        }
    }
    assert forall|i: int|
        0 <= i < s.len() && ((#[trigger] s[i]).field.name == "__row_id__"@ || s[i].field.name
            == "__activator__"@) implies r.contains(s[i].field) by {
        if s[i].field.name == "__row_id__"@ {
            let k = no_kept_item_is_lost(s, row, i);
            assert(r[1 + k] == rows[k]);
        } else {
            let k = no_kept_item_is_lost(s, act, i);
            assert(r[1 + rows.len() + k] == acts[k]);
        }
    }
    assert forall|k: int, l: int|
        1 <= k < l < r.len() && (#[trigger] r[k]).name == "__activator__"@ implies (
    #[trigger] r[l]).name == "__activator__"@ by {
        if k - 1 < rows.len() {
            assert(r[k] == rows[k - 1]);
        } else {
            assert(r[l] == acts[l - 1 - rows.len()]);
        }
    }
}

/// The projection that normalization builds leaves every column as it was:
/// under its own qualifier and name, and read from there.
pub proof fn normalization_projects_every_column_onto_itself(s: Seq<QFieldView>, i: int)
    requires
        0 <= i < s.len(),
    ensures
        identity_projection(s).len() == s.len(),
        identity_projection(s)[i] matches ExprView::Alias { expr, relation, name }
            && relation == s[i].qualifier && name == s[i].field.name && *expr == ExprView::Column(
            ColumnView { relation, name },
        ),
{
}

/// A qualified data column carries the keys that are known of it under the
/// table that its qualifier names.
pub proof fn columns_carry_their_keys(
    store: Map<Seq<char>, TableConstraintView>,
    q: QFieldView,
    r: Seq<Seq<char>>,
    c: ColumnConstraintView,
)
    requires
        q.qualifier == Some(r),
        q.field.name != "__activator__"@,
        q.field.name != "__row_id__"@,
        column_constraints(store, table_key(dotted(r)), q.field.name) == Some(c),
    ensures
        ({
            let m = annotated_field(store, q).metadata;
            &&& c.is_pk ==> m.contains_key("tt.pk"@) && m["tt.pk"@] == "true"@
            &&& c.fk_ref_table matches Some(t) ==> m.contains_key("tt.fk.ref_table"@)
                && m["tt.fk.ref_table"@] == t
        }),
{
    annotations_say_what_is_known(
        q.field.metadata.insert(QUALIFIER_METADATA_KEY@, dotted(r)),
        store,
        table_key(dotted(r)),
        q.field.name,
    );
}

/// Where several row-number columns are all unqualified, none is carried
/// along: it could not be told which is meant.
pub proof fn ambiguous_row_numbers_are_not_carried_along(
    s: Seq<QFieldView>,
    exprs: Seq<ExprView>,
    i: int,
    j: int,
)
    requires
        0 <= i < j < s.len(),
        s[i].field.name == "__row_id__"@,
        s[j].field.name == "__row_id__"@,
        forall|k: int|
            0 <= k < s.len() && (#[trigger] s[k]).field.name == "__row_id__"@ ==> s[k].qualifier
                is None,
    ensures
        with_row_id(s, exprs) == exprs,
{
    let f = column_if_named(ROW_ID_COL_NAME@);
    let columns = columns_named(s, ROW_ID_COL_NAME@);
    lemma_two_kept(s, f, i, j);
    lemma_first_index(columns, is_qualified());
    match first_index(columns, is_qualified()) {
        Some(k) => {
            let x = kept_items_come_from_the_list(s, f, k);
            assert(is_qualified()(columns[k]));
            assert(s[x].field.name == "__row_id__"@);
            assert(false);
        },
        None => {},
    }
}

proof fn lemma_two_kept<T, U>(s: Seq<T>, f: spec_fn(T) -> Option<U>, i: int, j: int)
    requires
        0 <= i < j < s.len(),
        f(s[i]) is Some,
        f(s[j]) is Some,
    ensures
        kept(s, f).len() >= 2,
    decreases s.len(),
{
    let t = s.drop_last();
    if j < t.len() {
        assert(s[i] == t[i] && s[j] == t[j]);
        lemma_two_kept(t, f, i, j);
    } else {
        assert(s[i] == t[i]);
        let k = no_kept_item_is_lost(t, f, i);
    }
}

/// A column that no flag was set for is materialized, and a flag that was set
/// is the one that is found.
pub proof fn unflagged_columns_are_materialized(
    flags: Seq<(FieldView, bool)>,
    f: FieldView,
    b: bool,
)
    ensures
        (forall|k: int| 0 <= k < flags.len() ==> (#[trigger] flags[k]).0 != f) ==> flag_or_true(
            flags,
            f,
        ),
        flag_or_true(with_flag(flags, f, b), f) == b,
{
    lemma_flag_after_set(flags, f, b, f);
    lemma_first_index(flags, flag_of(f));
}

} // verus!
