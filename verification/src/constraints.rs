//! Key constraints of the tables of a dataset, and the annotations that
//! fields carry on their account.
use crate::metadata::Metadata;
use crate::schema::text_opt;
use crate::seqs::{copy_texts, joined, texts_view};
use crate::text::{
    after_last_dot, ascii_lowered, ascii_uppered, is_ascii_text, last_segment,
    lemma_lower_last_segment, lemma_lower_marks, lemma_lower_trimmed, lemma_prefix_is_dropped,
    lower_case_is_stable, lowercase, lowercased, same_text, trim_char, trimmed,
    upper_case_is_read_alike,
};
use crate::text_map::{find_latest, latest, lemma_latest_push};
use vstd::prelude::*;
use vstd::string::*;

verus! {

/// Annotation of a primary-key column.
pub const PK_METADATA_KEY: &'static str = "tt.pk";

/// Annotation that holds the table a foreign key refers to.
pub const FK_REF_TABLE_METADATA_KEY: &'static str = "tt.fk.ref_table";

/// Annotation that holds the columns a foreign key refers to.
pub const FK_REF_COLUMNS_METADATA_KEY: &'static str = "tt.fk.ref_columns";

// ---------------------------------------------------------------------------
// Manifests, as they are written beside the data
// ---------------------------------------------------------------------------

/// A foreign key of a manifest.
#[derive(Debug)]
pub struct ForeignKeySpec {
    pub columns: Vec<String>,
    pub ref_table: String,
    pub ref_columns: Vec<String>,
}

/// The keys of one table of a manifest.
#[derive(Debug)]
pub struct TableConstraintSpec {
    pub table: String,
    pub primary_key: Vec<String>,
    pub foreign_keys: Vec<ForeignKeySpec>,
}

/// The keys of the tables of a directory.
#[derive(Debug)]
pub struct ConstraintManifest {
    pub tables: Vec<TableConstraintSpec>,
}

/// Mathematical counterpart of [`ForeignKeySpec`].
pub struct ForeignKeySpecView {
    pub columns: Seq<Seq<char>>,
    pub ref_table: Seq<char>,
    pub ref_columns: Seq<Seq<char>>,
}

/// Mathematical counterpart of [`TableConstraintSpec`].
pub struct TableSpecView {
    pub table: Seq<char>,
    pub primary_key: Seq<Seq<char>>,
    pub foreign_keys: Seq<ForeignKeySpecView>,
}

impl ForeignKeySpec {
    /// The foreign key as a mathematical value.
    pub open spec fn view(&self) -> ForeignKeySpecView {
        ForeignKeySpecView {
            columns: texts_view(self.columns@),
            ref_table: self.ref_table@,
            ref_columns: texts_view(self.ref_columns@),
        }
    }
}

impl TableConstraintSpec {
    /// The keys of the table as a mathematical value.
    pub open spec fn view(&self) -> TableSpecView {
        TableSpecView {
            table: self.table@,
            primary_key: texts_view(self.primary_key@),
            foreign_keys: Seq::new(self.foreign_keys@.len(), |i: int| self.foreign_keys@[i]@),
        }
    }
}

impl ConstraintManifest {
    /// The manifest as a mathematical value.
    pub open spec fn view(&self) -> Seq<TableSpecView> {
        Seq::new(self.tables@.len(), |i: int| self.tables@[i]@)
    }
}

/// What was read beside each data file: a manifest, or nothing.
pub open spec fn manifests_view(s: Seq<Option<ConstraintManifest>>) -> Seq<
    Option<Seq<TableSpecView>>,
> {
    Seq::new(
        s.len(),
        |i: int|
            match s[i] {
                Some(m) => Some(m@),
                None => None,
            },
    )
}

// ---------------------------------------------------------------------------
// The constraints in force
// ---------------------------------------------------------------------------

/// What a foreign-key column refers to.
#[derive(Debug)]
pub struct ForeignKeyColConstraint {
    pub ref_table: String,
    pub ref_columns: Vec<String>,
}

/// Mathematical counterpart of [`ForeignKeyColConstraint`].
#[verifier::ext_equal]
pub struct ForeignKeyView {
    pub ref_table: Seq<char>,
    pub ref_columns: Seq<Seq<char>>,
}

impl ForeignKeyColConstraint {
    /// The reference as a mathematical value.
    pub open spec fn view(&self) -> ForeignKeyView {
        ForeignKeyView { ref_table: self.ref_table@, ref_columns: texts_view(self.ref_columns@) }
    }
}

/// The keys of one table, by lower-case column name.
#[derive(Debug)]
pub struct TableConstraint {
    pub primary_key_cols: Vec<String>,
    pub foreign_key_by_col: Vec<(String, ForeignKeyColConstraint)>,
}

/// Mathematical counterpart of [`TableConstraint`].
#[verifier::ext_equal]
pub struct TableConstraintView {
    pub primary_key_cols: Set<Seq<char>>,
    pub foreign_keys: Map<Seq<char>, ForeignKeyView>,
}

/// The foreign keys of a list of entries, by column.
pub open spec fn foreign_key_map(s: Seq<(String, ForeignKeyColConstraint)>) -> Map<
    Seq<char>,
    ForeignKeyView,
> {
    latest(s).map_values(|v: ForeignKeyColConstraint| v@)
}

impl TableConstraint {
    /// The keys as a mathematical value.
    pub open spec fn view(&self) -> TableConstraintView {
        TableConstraintView {
            primary_key_cols: texts_view(self.primary_key_cols@).to_set(),
            foreign_keys: foreign_key_map(self.foreign_key_by_col@),
        }
    }
}

/// The constraints of all known tables, by lower-case table name.
#[derive(Debug)]
pub struct Constraints {
    pub tables: Vec<(String, TableConstraint)>,
}

impl Constraints {
    /// The constraints as a mathematical value.
    pub open spec fn view(&self) -> Map<Seq<char>, TableConstraintView> {
        latest(self.tables@).map_values(|v: TableConstraint| v@)
    }

    /// No constraints.
    pub fn new() -> (r: Constraints)
        ensures
            r@ == Map::<Seq<char>, TableConstraintView>::empty(),
    {
        let r = Constraints { tables: Vec::new() };
        assert(r@ =~= Map::<Seq<char>, TableConstraintView>::empty());
        r
    }
}

/// The texts in lower case.
pub open spec fn lowercased_all(s: Seq<Seq<char>>) -> Seq<Seq<char>> {
    Seq::new(s.len(), |i: int| lowercased(s[i]))
}

/// `m` with the same reference for each of the columns.
pub open spec fn with_columns(
    m: Map<Seq<char>, ForeignKeyView>,
    columns: Seq<Seq<char>>,
    fk: ForeignKeyView,
) -> Map<Seq<char>, ForeignKeyView>
    decreases columns.len(),
{
    if columns.len() == 0 {
        m
    } else {
        with_columns(m, columns.drop_last(), fk).insert(lowercased(columns.last()), fk)
    }
}

/// What the foreign keys of a manifest say of each column; of two for one
/// column the later counts.
pub open spec fn foreign_keys_of(specs: Seq<ForeignKeySpecView>) -> Map<Seq<char>, ForeignKeyView>
    decreases specs.len(),
{
    if specs.len() == 0 {
        Map::empty()
    } else {
        let fk = specs.last();
        with_columns(
            foreign_keys_of(specs.drop_last()),
            fk.columns,
            ForeignKeyView {
                ref_table: fk.ref_table,
                ref_columns: lowercased_all(fk.ref_columns),
            },
        )
    }
}

/// The constraint that a manifest states of a table.
pub open spec fn constraint_of(t: TableSpecView) -> TableConstraintView {
    TableConstraintView {
        primary_key_cols: lowercased_all(t.primary_key).to_set(),
        foreign_keys: foreign_keys_of(t.foreign_keys),
    }
}

/// The constraints with those of a manifest on top.
pub open spec fn with_manifest(
    base: Map<Seq<char>, TableConstraintView>,
    tables: Seq<TableSpecView>,
) -> Map<Seq<char>, TableConstraintView>
    decreases tables.len(),
{
    if tables.len() == 0 {
        base
    } else {
        with_manifest(base, tables.drop_last()).insert(
            lowercased(tables.last().table),
            constraint_of(tables.last()),
        )
    }
}

/// The constraints of all the manifests that were read, in order.
pub open spec fn merged_constraints(manifests: Seq<Option<Seq<TableSpecView>>>) -> Map<
    Seq<char>,
    TableConstraintView,
>
    decreases manifests.len(),
{
    if manifests.len() == 0 {
        Map::empty()
    } else {
        let before = merged_constraints(manifests.drop_last());
        match manifests.last() {
            Some(tables) => with_manifest(before, tables),
            None => before,
        }
    }
}

fn lowercase_all(list: &Vec<String>) -> (r: Vec<String>)
    ensures
        texts_view(r@) == lowercased_all(texts_view(list@)),
{
    let mut out: Vec<String> = Vec::new();
    let mut i: usize = 0;
    while i < list.len()
        invariant
            i <= list@.len(),
            out@.len() == i,
            forall|j: int| 0 <= j < i ==> (#[trigger] out@[j])@ == lowercased(list@[j]@),
        decreases list@.len() - i,
    {
        out.push(lowercase(list[i].as_str()));
        i = i + 1;
    }
    assert(texts_view(out@) =~= lowercased_all(texts_view(list@)));
    out
}

fn add_foreign_key(
    entries: &mut Vec<(String, ForeignKeyColConstraint)>,
    fk: &ForeignKeySpec,
)
    ensures
        foreign_key_map(final(entries)@) == with_columns(
            foreign_key_map(old(entries)@),
            fk@.columns,
            ForeignKeyView {
                ref_table: fk@.ref_table,
                ref_columns: lowercased_all(fk@.ref_columns),
            },
        ),
{
    let ref_columns: Vec<String> = lowercase_all(&fk.ref_columns);
    let ghost target = ForeignKeyView {
        ref_table: fk@.ref_table,
        ref_columns: lowercased_all(fk@.ref_columns),
    };
    let ghost base = foreign_key_map(entries@);
    let mut i: usize = 0;
    assert(fk@.columns.take(0) =~= Seq::<Seq<char>>::empty());
    while i < fk.columns.len()
        invariant
            i <= fk.columns@.len(),
            texts_view(ref_columns@) == lowercased_all(fk@.ref_columns),
            target == (ForeignKeyView {
                ref_table: fk@.ref_table,
                ref_columns: lowercased_all(fk@.ref_columns),
            }),
            foreign_key_map(entries@) == with_columns(base, fk@.columns.take(i as int), target),
        decreases fk.columns@.len() - i,
    {
        let ghost before = entries@;
        let constraint = ForeignKeyColConstraint {
            ref_table: fk.ref_table.clone(),
            ref_columns: copy_texts(&ref_columns),
        };
        let key: String = lowercase(fk.columns[i].as_str());
        let ghost entry = (key, constraint);
        entries.push((key, constraint));
        proof {
            lemma_latest_push(before, entry);
            assert(entry.1@ == target);
            assert(foreign_key_map(entries@) =~= foreign_key_map(before).insert(entry.0@, target));
            assert(fk@.columns.take(i + 1).drop_last() =~= fk@.columns.take(i as int));
            assert(fk@.columns.take(i + 1).last() == fk.columns@[i as int]@);
        }
        i = i + 1;
    }
    assert(fk@.columns.take(fk@.columns.len() as int) =~= fk@.columns);
}

fn table_constraint(source: &TableConstraintSpec) -> (r: TableConstraint)
    ensures
        r@ == constraint_of(source@),
{
    let primary_key_cols: Vec<String> = lowercase_all(&source.primary_key);
    let mut entries: Vec<(String, ForeignKeyColConstraint)> = Vec::new();
    let mut i: usize = 0;
    let ghost specs = source@.foreign_keys;
    assert(specs.take(0) =~= Seq::<ForeignKeySpecView>::empty());
    assert(foreign_key_map(entries@) =~= Map::<Seq<char>, ForeignKeyView>::empty());
    while i < source.foreign_keys.len()
        invariant
            i <= source.foreign_keys@.len(),
            specs == source@.foreign_keys,
            foreign_key_map(entries@) == foreign_keys_of(specs.take(i as int)),
        decreases source.foreign_keys@.len() - i,
    {
        add_foreign_key(&mut entries, &source.foreign_keys[i]);
        proof {
            assert(specs.take(i + 1).drop_last() =~= specs.take(i as int));
            assert(specs.take(i + 1).last() == source.foreign_keys@[i as int]@);
        }
        i = i + 1;
    }
    assert(specs.take(specs.len() as int) =~= specs);
    TableConstraint { primary_key_cols, foreign_key_by_col: entries }
}

/// Adds the constraints of a manifest.
pub fn merge_constraints(out: &mut Constraints, manifest: &ConstraintManifest)
    ensures
        final(out)@ == with_manifest(old(out)@, manifest@),
{
    let ghost base = out@;
    let mut i: usize = 0;
    assert(manifest@.take(0) =~= Seq::<TableSpecView>::empty());
    while i < manifest.tables.len()
        invariant
            i <= manifest.tables@.len(),
            out@ == with_manifest(base, manifest@.take(i as int)),
        decreases manifest.tables@.len() - i,
    {
        let ghost before = *out;
        let key: String = lowercase(manifest.tables[i].table.as_str());
        let constraint = table_constraint(&manifest.tables[i]);
        let ghost entry = (key, constraint);
        out.tables.push((key, constraint));
        proof {
            lemma_latest_push(before.tables@, entry);
            assert(out@ =~= before@.insert(entry.0@, entry.1@));
            assert(manifest@.take(i + 1).drop_last() =~= manifest@.take(i as int));
            assert(manifest@.take(i + 1).last() == manifest.tables@[i as int]@);
        }
        i = i + 1;
    }
    assert(manifest@.take(manifest@.len() as int) =~= manifest@);
}

/// Replaces the constraints in force by those of the manifests beside the
/// data files, one entry for each file. A directory without a readable
/// manifest adds nothing.
pub fn configure_constraint_metadata_from_parquet_paths(
    store: &mut Constraints,
    manifests: &Vec<Option<ConstraintManifest>>,
)
    ensures
        final(store)@ == merged_constraints(manifests_view(manifests@)),
{
    let mut merged = Constraints::new();
    let ghost views = manifests_view(manifests@);
    let mut i: usize = 0;
    assert(views.take(0) =~= Seq::<Option<Seq<TableSpecView>>>::empty());
    while i < manifests.len()
        invariant
            i <= manifests@.len(),
            views == manifests_view(manifests@),
            merged@ == merged_constraints(views.take(i as int)),
        decreases manifests@.len() - i,
    {
        proof {
            assert(views.take(i + 1).drop_last() =~= views.take(i as int));
            assert(views.take(i + 1).last() == views[i as int]);
        }
        match &manifests[i] {
            Some(m) => merge_constraints(&mut merged, m),
            None => {},
        }
        i = i + 1;
    }
    assert(views.take(views.len() as int) =~= views);
    *store = merged;
}

/// The table that a qualifier names: its last segment without quotes.
pub open spec fn bare_name(qualifier: Seq<char>) -> Seq<char> {
    trimmed(trimmed(after_last_dot(qualifier), '"'), '`')
}

/// The key under which the table of a qualifier is known: its bare name in
/// lower case.
pub open spec fn table_key(qualifier: Seq<char>) -> Seq<char> {
    lowercased(bare_name(qualifier))
}

/// The key of a table depends on the part of its qualifier behind the last dot
/// alone.
pub proof fn qualifier_prefixes_are_dropped(p: Seq<char>, t: Seq<char>)
    ensures
        table_key(p + "."@ + t) == table_key(t),
{
    lemma_prefix_is_dropped(p, t);
}

/// The key of an ASCII name, in terms of the name in lower case.
proof fn lemma_ascii_key(t: Seq<char>)
    requires
        is_ascii_text(t),
    ensures
        is_ascii_text(bare_name(t)),
        table_key(t) == bare_name(ascii_lowered(t)),
        table_key(t) == ascii_lowered(bare_name(t)),
{
    lemma_lower_last_segment(t);
    lemma_lower_trimmed(after_last_dot(t), '"');
    lemma_lower_trimmed(trimmed(after_last_dot(t), '"'), '`');
}

/// The key of a table does not depend on the case of the letters of its name.
pub proof fn letter_case_of_tables_is_dropped(t: Seq<char>, u: Seq<char>)
    requires
        is_ascii_text(t),
        is_ascii_text(u),
        lowercased(t) == lowercased(u),
    ensures
        table_key(t) == table_key(u),
{
    lemma_ascii_key(t);
    lemma_ascii_key(u);
}

/// The bare name of a table holds no dot and has no backquote at its ends. So
/// does the key of a table with an ASCII name, which is in lower case besides.
pub proof fn table_keys_are_bare(t: Seq<char>)
    ensures
        forall|i: int| 0 <= i < bare_name(t).len() ==> (#[trigger] bare_name(t)[i]) != '.',
        bare_name(t).len() > 0 ==> bare_name(t)[0] != '`' && bare_name(t).last() != '`',
        is_ascii_text(bare_name(t)) ==> {
            &&& forall|i: int| 0 <= i < table_key(t).len() ==> (#[trigger] table_key(t)[i]) != '.'
            &&& table_key(t).len() > 0 ==> table_key(t)[0] != '`' && table_key(t).last() != '`'
            &&& lowercased(table_key(t)) == table_key(t)
        },
{
    let segment = after_last_dot(t);
    let unquoted = trimmed(segment, '"');
    let bare = bare_name(t);
    lemma_lower_last_segment(t);
    lemma_lower_trimmed(segment, '"');
    lemma_lower_trimmed(unquoted, '`');
    assert forall|i: int| 0 <= i < bare.len() implies (#[trigger] bare[i]) != '.' by {
        assert(unquoted.contains(bare[i]));
        let j = choose|j: int| 0 <= j < unquoted.len() && unquoted[j] == bare[i];
        assert(segment.contains(unquoted[j]));
        let k = choose|k: int| 0 <= k < segment.len() && segment[k] == unquoted[j];
        assert(segment[k] != '.');
    }
    if is_ascii_text(bare) {
        lemma_lower_marks(bare);
        assert forall|i: int| 0 <= i < table_key(t).len() implies (#[trigger] table_key(t)[i])
            != '.' by {
            assert(table_key(t)[i] == ascii_lowered(bare)[i]);
            assert(bare[i] != '.');
        }
        if bare.len() > 0 {
            assert(ascii_lowered(bare)[0] != '`');
            assert(ascii_lowered(bare)[bare.len() - 1] != '`');
        }
        lower_case_is_stable(bare);
    }
}

/// The key under which the table of a qualifier is known.
pub fn table_name_from_qualifier(qualifier: &str) -> (r: String)
    ensures
        r@ == table_key(qualifier@),
{
    let last: String = last_segment(qualifier);
    let unquoted: String = trim_char(last.as_str(), '"');
    let bare: String = trim_char(unquoted.as_str(), '`');
    lowercase(bare.as_str())
}

/// What is known of a column's part in the keys of its table.
#[derive(Debug)]
pub struct ColumnConstraintMetadata {
    pub is_pk: bool,
    pub fk_ref_table: Option<String>,
    pub fk_ref_columns: Vec<String>,
}

/// Mathematical counterpart of [`ColumnConstraintMetadata`].
#[verifier::ext_equal]
pub struct ColumnConstraintView {
    pub is_pk: bool,
    pub fk_ref_table: Option<Seq<char>>,
    pub fk_ref_columns: Seq<Seq<char>>,
}

impl ColumnConstraintMetadata {
    /// The constraints of the column as a mathematical value.
    pub open spec fn view(&self) -> ColumnConstraintView {
        ColumnConstraintView {
            is_pk: self.is_pk,
            fk_ref_table: text_opt(self.fk_ref_table),
            fk_ref_columns: texts_view(self.fk_ref_columns@),
        }
    }
}

/// What is known of a column of a table, under the table's own key.
pub open spec fn column_constraints(
    store: Map<Seq<char>, TableConstraintView>,
    table: Seq<char>,
    column: Seq<char>,
) -> Option<ColumnConstraintView> {
    if store.contains_key(table) {
        let t = store[table];
        let key = lowercased(column);
        Some(
            ColumnConstraintView {
                is_pk: t.primary_key_cols.contains(key),
                fk_ref_table: if t.foreign_keys.contains_key(key) {
                    Some(t.foreign_keys[key].ref_table)
                } else {
                    None
                },
                fk_ref_columns: if t.foreign_keys.contains_key(key) {
                    t.foreign_keys[key].ref_columns
                } else {
                    Seq::empty()
                },
            },
        )
    } else {
        None
    }
}

/// What is known of a column depends neither on what stands in front of the
/// table's name nor on the case of the letters of the two names.
pub proof fn constraints_ignore_prefix_and_case(
    store: Map<Seq<char>, TableConstraintView>,
    q: Seq<char>,
    t: Seq<char>,
    u: Seq<char>,
    c: Seq<char>,
    d: Seq<char>,
)
    requires
        t == u || (is_ascii_text(t) && is_ascii_text(u) && lowercased(t) == lowercased(u)),
        lowercased(c) == lowercased(d),
    ensures
        column_constraints(store, table_key(q + "."@ + u), d) == column_constraints(
            store,
            table_key(t),
            c,
        ),
        column_constraints(store, table_key(u), d) == column_constraints(store, table_key(t), c),
{
    qualifier_prefixes_are_dropped(q, u);
    if t != u {
        letter_case_of_tables_is_dropped(t, u);
    }
}

/// Names in upper case are known by the same constraints.
pub proof fn constraints_ignore_upper_case(
    store: Map<Seq<char>, TableConstraintView>,
    t: Seq<char>,
    c: Seq<char>,
)
    requires
        is_ascii_text(t),
        is_ascii_text(c),
    ensures
        column_constraints(store, table_key(ascii_uppered(t)), c) == column_constraints(
            store,
            table_key(t),
            c,
        ),
        column_constraints(store, table_key(t), ascii_uppered(c)) == column_constraints(
            store,
            table_key(t),
            c,
        ),
{
    upper_case_is_read_alike(t);
    upper_case_is_read_alike(c);
    constraints_ignore_prefix_and_case(store, t, t, ascii_uppered(t), c, c);
    constraints_ignore_prefix_and_case(store, t, t, t, c, ascii_uppered(c));
}

fn holds_text(list: &Vec<String>, text: &str) -> (r: bool)
    ensures
        r == texts_view(list@).to_set().contains(text@),
{
    let mut i: usize = 0;
    while i < list.len()
        invariant
            i <= list@.len(),
            forall|j: int| 0 <= j < i ==> (#[trigger] list@[j])@ != text@,
        decreases list@.len() - i,
    {
        if same_text(list[i].as_str(), text) {
            assert(texts_view(list@)[i as int] == text@);
            return true;
        }
        i = i + 1;
    }
    proof {
        assert forall|j: int| 0 <= j < list@.len() implies texts_view(list@)[j] != text@ by {
            assert(list@[j]@ != text@);
        }
    }
    false
}

fn constraints_under(store: &Constraints, table_key: &str, column_name: &str) -> (r: Option<
    ColumnConstraintMetadata,
>)
    ensures
        match r {
            Some(c) => column_constraints(store@, table_key@, column_name@) == Some(c@),
            None => column_constraints(store@, table_key@, column_name@) is None,
        },
{
    match find_latest(&store.tables, table_key) {
        Some(table) => {
            let column_key: String = lowercase(column_name);
            let is_pk: bool = holds_text(&table.primary_key_cols, column_key.as_str());
            let r = match find_latest(&table.foreign_key_by_col, column_key.as_str()) {
                Some(fk) => ColumnConstraintMetadata {
                    is_pk,
                    fk_ref_table: Some(fk.ref_table.clone()),
                    fk_ref_columns: copy_texts(&fk.ref_columns),
                },
                None => ColumnConstraintMetadata {
                    is_pk,
                    fk_ref_table: None,
                    fk_ref_columns: Vec::new(),
                },
            };
            assert(r@.fk_ref_columns =~= column_constraints(
                store@,
                table_key@,
                column_name@,
            ).unwrap().fk_ref_columns);
            Some(r)
        },
        None => None,
    }
}

/// What is known of a column of the table that a qualifier names.
pub fn column_constraint_metadata(
    store: &Constraints,
    table_name: &str,
    column_name: &str,
) -> (r: Option<ColumnConstraintMetadata>)
    ensures
        match r {
            Some(c) => column_constraints(store@, table_key(table_name@), column_name@) == Some(
                c@,
            ),
            None => column_constraints(store@, table_key(table_name@), column_name@) is None,
        },
{
    let key: String = table_name_from_qualifier(table_name);
    constraints_under(store, key.as_str(), column_name)
}

// ---------------------------------------------------------------------------
// Annotations
// ---------------------------------------------------------------------------

/// Whether a string is written in JSON as it is, between quotes: it holds no
/// control character, no quote and no backslash.
pub open spec fn unescaped(s: Seq<char>) -> bool {
    forall|i: int| 0 <= i < s.len() ==> ' ' <= #[trigger] s[i] && s[i] != '"' && s[i] != '\\'
}

/// Whether every string of a list is written in JSON as it is.
pub open spec fn all_unescaped(list: Seq<Seq<char>>) -> bool {
    forall|i: int| 0 <= i < list.len() ==> unescaped(#[trigger] list[i])
}

/// The strings between quotes.
pub open spec fn quoted_all(list: Seq<Seq<char>>) -> Seq<Seq<char>> {
    Seq::new(list.len(), |i: int| "\""@ + list[i] + "\""@)
}

/// The strings between quotes, with commas between them and brackets around.
pub open spec fn quoted_list(list: Seq<Seq<char>>) -> Seq<char> {
    "["@ + joined(quoted_all(list), ","@) + "]"@
}

/// What [`json_text`] returns.
pub uninterp spec fn json_strings(list: Seq<Seq<char>>) -> Option<Seq<char>>;

/// Calls `serde_json::to_string` on a list of strings: the list as compact
/// JSON text, `None` where the call reports an error. The contract claims that
/// the text depends on the strings alone, and that strings which need no
/// escapes are listed between quotes, with commas between them.
#[verifier::external_body]
fn json_text(list: &Vec<String>) -> (r: Option<String>)
    ensures
        text_opt(r) == json_strings(texts_view(list@)),
        all_unescaped(texts_view(list@)) ==> text_opt(r) == Some(quoted_list(texts_view(list@))),
{
    serde_json::to_string(list).ok()
}

/// The text that a list of strings is annotated as.
pub open spec fn list_text(list: Seq<Seq<char>>) -> Option<Seq<char>> {
    if all_unescaped(list) {
        Some(quoted_list(list))
    } else {
        json_strings(list)
    }
}

/// The annotations of a column with those of its key constraints.
pub open spec fn constrained(
    m: Map<Seq<char>, Seq<char>>,
    store: Map<Seq<char>, TableConstraintView>,
    table: Seq<char>,
    column: Seq<char>,
) -> Map<Seq<char>, Seq<char>> {
    match column_constraints(store, table, column) {
        None => m,
        Some(c) => {
            let with_pk = if c.is_pk {
                m.insert(PK_METADATA_KEY@, "true"@)
            } else {
                m
            };
            match c.fk_ref_table {
                None => with_pk,
                Some(t) => {
                    let with_table = with_pk.insert(FK_REF_TABLE_METADATA_KEY@, t);
                    match list_text(c.fk_ref_columns) {
                        Some(text) => with_table.insert(FK_REF_COLUMNS_METADATA_KEY@, text),
                        None => with_table,
                    }
                },
            }
        },
    }
}

/// Adds the annotations of a column's key constraints.
pub fn apply_constraint_metadata(
    metadata: Metadata,
    store: &Constraints,
    table_name: &str,
    column_name: &str,
) -> (r: Metadata)
    ensures
        r@ == constrained(metadata@, store@, table_name@, column_name@),
{
    match constraints_under(store, table_name, column_name) {
        None => metadata,
        Some(c) => {
            let with_pk = if c.is_pk {
                metadata.with(PK_METADATA_KEY.to_owned(), "true".to_owned())
            } else {
                metadata
            };
            match c.fk_ref_table {
                None => with_pk,
                Some(t) => {
                    let with_table = with_pk.with(FK_REF_TABLE_METADATA_KEY.to_owned(), t);
                    match json_text(&c.fk_ref_columns) {
                        Some(text) => with_table.with(
                            FK_REF_COLUMNS_METADATA_KEY.to_owned(),
                            text,
                        ),
                        None => with_table,
                    }
                },
            }
        },
    }
}

// ---------------------------------------------------------------------------
// What the manifests say
// ---------------------------------------------------------------------------

/// The last entry for a table is the one that counts, and a manifest leaves
/// the tables that it does not list as they were.
pub proof fn the_last_entry_for_a_table_counts(
    base: Map<Seq<char>, TableConstraintView>,
    tables: Seq<TableSpecView>,
    key: Seq<char>,
)
    ensures
        (forall|j: int| 0 <= j < tables.len() ==> lowercased((#[trigger] tables[j]).table) != key)
            ==> (with_manifest(base, tables).contains_key(key) == base.contains_key(key) && (
        base.contains_key(key) ==> with_manifest(base, tables)[key] == base[key])),
        forall|i: int|
            0 <= i < tables.len() && lowercased((#[trigger] tables[i]).table) == key && (forall|
                j: int,
            |
                i < j < tables.len() ==> lowercased((#[trigger] tables[j]).table) != key)
                ==> with_manifest(base, tables).contains_key(key) && with_manifest(
                base,
                tables,
            )[key] == constraint_of(tables[i]),
    decreases tables.len(),
{
    if tables.len() > 0 {
        let t = tables.drop_last();
        the_last_entry_for_a_table_counts(base, t, key);
        let last = tables[tables.len() - 1];
        assert(tables.last() == last);
        assert forall|j: int| 0 <= j < t.len() implies #[trigger] t[j] == tables[j] by {}
        if lowercased(last.table) != key {
            assert forall|i: int|
                0 <= i < tables.len() && lowercased((#[trigger] tables[i]).table) == key && (
                forall|j: int|
                    i < j < tables.len() ==> lowercased((#[trigger] tables[j]).table)
                        != key) implies with_manifest(base, tables).contains_key(key)
                && with_manifest(base, tables)[key] == constraint_of(tables[i]) by {
                assert(t[i] == tables[i]);
                assert forall|j: int| i < j < t.len() implies lowercased(
                    (#[trigger] t[j]).table,
                ) != key by {
                    assert(t[j] == tables[j]);
                }
            }
            if forall|j: int|
                0 <= j < tables.len() ==> lowercased((#[trigger] tables[j]).table) != key {
                assert forall|j: int| 0 <= j < t.len() implies lowercased((#[trigger] t[j]).table)
                    != key by {
                    assert(t[j] == tables[j]);
                }
            }
        }
    }
}

/// Manifests are read in order: one more adds its tables to those before it,
/// and a file without a manifest adds nothing.
pub proof fn manifests_add_up(manifests: Seq<Option<Seq<TableSpecView>>>, key: Seq<char>)
    requires
        manifests.len() > 0,
    ensures
        manifests.last() is None ==> merged_constraints(manifests) == merged_constraints(
            manifests.drop_last(),
        ),
        manifests.last() matches Some(tables) ==> (forall|j: int|
            0 <= j < tables.len() ==> lowercased((#[trigger] tables[j]).table) != key) ==> (
        merged_constraints(manifests).contains_key(key) == merged_constraints(
            manifests.drop_last(),
        ).contains_key(key) && (merged_constraints(manifests).contains_key(key)
            ==> merged_constraints(manifests)[key] == merged_constraints(
            manifests.drop_last(),
        )[key])),
        manifests.last() matches Some(tables) ==> forall|i: int|
            0 <= i < tables.len() && lowercased((#[trigger] tables[i]).table) == key && (forall|
                j: int,
            |
                i < j < tables.len() ==> lowercased((#[trigger] tables[j]).table) != key)
                ==> merged_constraints(manifests).contains_key(key) && merged_constraints(
                manifests,
            )[key] == constraint_of(tables[i]),
{
    match manifests.last() {
        Some(tables) => {
            the_last_entry_for_a_table_counts(
                merged_constraints(manifests.drop_last()),
                tables,
                key,
            );
        },
        None => {},
    }
}

/// Whether a foreign key is on a column.
pub open spec fn is_on(fk: ForeignKeySpecView, key: Seq<char>) -> bool {
    exists|k: int| 0 <= k < fk.columns.len() && lowercased(#[trigger] fk.columns[k]) == key
}

proof fn lemma_with_columns(
    m: Map<Seq<char>, ForeignKeyView>,
    columns: Seq<Seq<char>>,
    fk: ForeignKeyView,
    key: Seq<char>,
)
    ensures
        (exists|k: int| 0 <= k < columns.len() && lowercased(#[trigger] columns[k]) == key)
            ==> with_columns(m, columns, fk).contains_key(key) && with_columns(m, columns, fk)[key]
            == fk,
        !(exists|k: int| 0 <= k < columns.len() && lowercased(#[trigger] columns[k]) == key)
            ==> with_columns(m, columns, fk).contains_key(key) == m.contains_key(key) && (
        m.contains_key(key) ==> with_columns(m, columns, fk)[key] == m[key]),
    decreases columns.len(),
{
    if columns.len() > 0 {
        let t = columns.drop_last();
        lemma_with_columns(m, t, fk, key);
        assert(columns.last() == columns[columns.len() - 1]);
        if exists|k: int| 0 <= k < columns.len() && lowercased(#[trigger] columns[k]) == key {
            let k = choose|k: int|
                0 <= k < columns.len() && lowercased(#[trigger] columns[k]) == key;
            if k < t.len() {
                assert(t[k] == columns[k]);
            }
        } else {
            assert forall|k: int| 0 <= k < t.len() implies lowercased(#[trigger] t[k]) != key by {
                assert(t[k] == columns[k]);
            }
        }
    }
}

proof fn lemma_foreign_keys(specs: Seq<ForeignKeySpecView>, key: Seq<char>)
    ensures
        (forall|j: int| 0 <= j < specs.len() ==> !is_on(#[trigger] specs[j], key))
            ==> !foreign_keys_of(specs).contains_key(key),
        forall|i: int|
            0 <= i < specs.len() && is_on(#[trigger] specs[i], key) && (forall|j: int|
                i < j < specs.len() ==> !is_on(#[trigger] specs[j], key)) ==> {
                &&& foreign_keys_of(specs).contains_key(key)
                &&& foreign_keys_of(specs)[key].ref_table == specs[i].ref_table
                &&& foreign_keys_of(specs)[key].ref_columns == lowercased_all(specs[i].ref_columns)
            },
    decreases specs.len(),
{
    if specs.len() > 0 {
        let t = specs.drop_last();
        let last = specs[specs.len() - 1];
        assert(specs.last() == last);
        lemma_foreign_keys(t, key);
        lemma_with_columns(
            foreign_keys_of(t),
            last.columns,
            ForeignKeyView {
                ref_table: last.ref_table,
                ref_columns: lowercased_all(last.ref_columns),
            },
            key,
        );
        if !is_on(last, key) {
            assert forall|i: int|
                0 <= i < specs.len() && is_on(#[trigger] specs[i], key) && (forall|j: int|
                    i < j < specs.len() ==> !is_on(#[trigger] specs[j], key)) implies {
                &&& foreign_keys_of(specs).contains_key(key)
                &&& foreign_keys_of(specs)[key].ref_table == specs[i].ref_table
                &&& foreign_keys_of(specs)[key].ref_columns == lowercased_all(specs[i].ref_columns)
            } by {
                assert(t[i] == specs[i]);
                assert forall|j: int| i < j < t.len() implies !is_on(#[trigger] t[j], key) by {
                    assert(t[j] == specs[j]);
                }
            }
            if forall|j: int| 0 <= j < specs.len() ==> !is_on(#[trigger] specs[j], key) {
                assert forall|j: int| 0 <= j < t.len() implies !is_on(#[trigger] t[j], key) by {
                    assert(t[j] == specs[j]);
                }
            }
        }
    }
}

/// What is known of a column is what its table's entry states, whatever the
/// case of its letters: it is of the primary key exactly when the entry lists
/// it there, and it refers to the table and the columns of the last foreign
/// key that is on it.
pub proof fn keys_are_those_of_the_entry(
    store: Map<Seq<char>, TableConstraintView>,
    table: Seq<char>,
    entry: TableSpecView,
    column: Seq<char>,
)
    requires
        store.contains_key(table),
        store[table] == constraint_of(entry),
    ensures
        column_constraints(store, table, column) matches Some(c) && {
            let key = lowercased(column);
            &&& c.is_pk <==> exists|k: int|
                0 <= k < entry.primary_key.len() && lowercased(#[trigger] entry.primary_key[k])
                    == key
            &&& (forall|j: int|
                0 <= j < entry.foreign_keys.len() ==> !is_on(#[trigger] entry.foreign_keys[j], key))
                ==> c.fk_ref_table is None && c.fk_ref_columns.len() == 0
            &&& forall|i: int|
                0 <= i < entry.foreign_keys.len() && is_on(#[trigger] entry.foreign_keys[i], key)
                    && (forall|j: int|
                    i < j < entry.foreign_keys.len() ==> !is_on(
                        #[trigger] entry.foreign_keys[j],
                        key,
                    )) ==> {
                    &&& c.fk_ref_table == Some(entry.foreign_keys[i].ref_table)
                    &&& c.fk_ref_columns == lowercased_all(entry.foreign_keys[i].ref_columns)
                }
        },
{
    let key = lowercased(column);
    lemma_foreign_keys(entry.foreign_keys, key);
    let names = lowercased_all(entry.primary_key);
    if names.to_set().contains(key) {
        let k = choose|k: int| 0 <= k < names.len() && names[k] == key;
        assert(lowercased(entry.primary_key[k]) == key);
    }
    if exists|k: int|
        0 <= k < entry.primary_key.len() && lowercased(#[trigger] entry.primary_key[k]) == key {
        let k = choose|k: int|
            0 <= k < entry.primary_key.len() && lowercased(#[trigger] entry.primary_key[k]) == key;
        assert(names[k] == key);
    }
}

/// Only tables that a manifest lists have constraints.
pub proof fn unlisted_tables_have_no_keys(
    store: Map<Seq<char>, TableConstraintView>,
    table: Seq<char>,
    column: Seq<char>,
)
    requires
        !store.contains_key(table),
    ensures
        column_constraints(store, table, column) is None,
{
}

/// The annotations of a column say what is known of it: that it is of the
/// primary key, which table it refers to, and which columns there. All other
/// annotations stay as they were.
pub proof fn annotations_say_what_is_known(
    m: Map<Seq<char>, Seq<char>>,
    store: Map<Seq<char>, TableConstraintView>,
    table: Seq<char>,
    column: Seq<char>,
)
    ensures
        ({
            let r = constrained(m, store, table, column);
            let known = column_constraints(store, table, column);
            &&& forall|key: Seq<char>|
                key != "tt.pk"@ && key != "tt.fk.ref_table"@ && key != "tt.fk.ref_columns"@
                    ==> #[trigger] r.contains_key(key) == m.contains_key(key) && (m.contains_key(
                    key,
                ) ==> r[key] == m[key])
            &&& known is None ==> r == m
            &&& known matches Some(c) ==> {
                &&& c.is_pk ==> r.contains_key("tt.pk"@) && r["tt.pk"@] == "true"@
                &&& !c.is_pk ==> r.contains_key("tt.pk"@) == m.contains_key("tt.pk"@)
                &&& c.fk_ref_table matches Some(t) ==> r.contains_key("tt.fk.ref_table"@)
                    && r["tt.fk.ref_table"@] == t
                &&& c.fk_ref_table is None ==> r.contains_key("tt.fk.ref_table"@)
                    == m.contains_key("tt.fk.ref_table"@)
                &&& c.fk_ref_table is Some && all_unescaped(c.fk_ref_columns) ==> r.contains_key(
                    "tt.fk.ref_columns"@,
                ) && r["tt.fk.ref_columns"@] == quoted_list(c.fk_ref_columns)
            }
        }),
{
    reveal_strlit("tt.pk");
    reveal_strlit("tt.fk.ref_table");
    reveal_strlit("tt.fk.ref_columns");
    assert("tt.pk"@.len() == 5);
    assert("tt.fk.ref_table"@.len() == 15);
    assert("tt.fk.ref_columns"@.len() == 17);
}

} // verus!
