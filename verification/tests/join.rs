//! Joins: which are proved, how the columns of the output are told apart by
//! their input, and which tables the checks of a join are handed.
use tt_core::df_schema::{DfSchema, QualifiedField};
use tt_core::grouped::{Bundle, GroupedCol, GroupedTable, Segment};
use tt_core::join::{
    append_tracked_col, find_missing_row, fold_lookup_table, index_poly, input_lookup_base,
    join_lookups, output_lookup_base, single_data_poly, validated_data, Fold, IndexSource,
    JoinError, JoinFault, JoinLabel,
};
use tt_core::join_mode::JoinMode;
use tt_core::join_scope::{
    ensure_supported_join, verifier_output_side_exprs, verifier_pair_schema, Join, JoinGadget,
    JoinSide, JoinUnsupported, SRC_LEFT_COL_NAME, SRC_RIGHT_COL_NAME,
};
use tt_core::join_wiring::{
    bool_table_from_output, build_match_pair_tables, initialize_gadgets, join_key_columns,
    nodup_table_from_output, ordered_join_columns, select_tracked_columns, KeysOf, BOOL_COL_NAME,
};
use tt_core::metadata::Metadata;
use tt_core::plan::{Column, Expr, JoinType, ScalarValue, Schema, TableReference};
use tt_core::schema::{DataType, Field};
use tt_core::table::{
    activator_field, row_id_field, Party, Poly, PolyId, Table, TrackedColumn, ACTIVATOR_COL_NAME,
    ROW_ID_COL_NAME,
};

fn bare(name: &str) -> Option<TableReference> {
    Some(TableReference::Bare { table: name.to_string() })
}

fn tagged(entries: &[(&str, &str)]) -> Metadata {
    let mut metadata = Metadata::new();
    for (key, value) in entries {
        metadata = metadata.with(key.to_string(), value.to_string());
    }
    metadata
}

fn qualified_field(name: &str, qualifier: &str) -> Field {
    Field::new(name, DataType::Int64, false).with_metadata(tagged(&[("tt.qualifier", qualifier)]))
}

fn poly(n: usize) -> Poly {
    Poly { id: PolyId::Numbered(n), tracker: 0, log_size: 1 }
}

fn single(field: Field, poly: Poly) -> GroupedCol {
    GroupedCol {
        field,
        primary: Bundle { poly, activator: None },
        row_aux: vec![],
        side_aux: vec![],
    }
}

fn schema(fields: Vec<Field>) -> Option<Schema> {
    Some(Schema { fields, metadata: Metadata::new() })
}

/// Hands out polynomials by number, as a prover does.
struct Tracker {
    next: usize,
}

impl Tracker {
    fn poly(&mut self) -> Poly {
        self.next += 1;
        poly(self.next)
    }

    /// A table of one committed polynomial for each field.
    fn table(&mut self, fields: Vec<Field>, with_activator: bool) -> GroupedTable {
        let mut all = fields;
        if with_activator {
            all.push(activator_field());
        }
        GroupedTable {
            schema: schema(all.iter().map(Field::copy).collect()),
            cols: all.into_iter().map(|f| single(f, self.poly())).collect(),
            log_size: 1,
        }
    }
}

fn data_width(table: &Table) -> usize {
    table
        .cols
        .iter()
        .filter(|c| c.field.name != ACTIVATOR_COL_NAME && c.field.name != ROW_ID_COL_NAME)
        .count()
}

fn scan(relation: &str, fields: &[(&str, bool)]) -> DfSchema {
    DfSchema {
        fields: fields
            .iter()
            .map(|(name, nullable)| QualifiedField {
                qualifier: bare(relation),
                field: Field::new(name, DataType::Int64, *nullable),
            })
            .collect(),
    }
}

fn join_of(left: DfSchema, right: DfSchema) -> Join {
    Join {
        left,
        right,
        on: vec![(
            Expr::Column(Column::new(bare("left"), "key")),
            Expr::Column(Column::new(bare("right"), "key")),
        )],
        filter: None,
        join_type: JoinType::Inner,
    }
}

fn inner_join(nullable: bool) -> Join {
    join_of(scan("left", &[("key", nullable)]), scan("right", &[("key", nullable)]))
}

fn inner_join_with_nullable_payload(nullable: bool) -> Join {
    let fields = [("key", false), ("payload", nullable)];
    join_of(scan("left", &fields), scan("right", &fields))
}

#[test]
fn join_proof_scope_accepts_plain_nonnullable_inner_equijoin() {
    ensure_supported_join(&inner_join(false))
        .expect("plain inner equijoin is the supported protocol scope");
}

#[test]
fn join_proof_scope_rejects_unconstrained_join_shapes() {
    let mut non_inner = inner_join(false);
    non_inner.join_type = JoinType::Left;
    assert_eq!(ensure_supported_join(&non_inner), Err(JoinUnsupported::NotInner));

    let mut no_keys = inner_join(false);
    no_keys.on.clear();
    assert_eq!(ensure_supported_join(&no_keys), Err(JoinUnsupported::NoKeys));

    let mut filtered = inner_join(false);
    filtered.filter = Some(Expr::Literal(ScalarValue::Boolean(Some(true))));
    assert_eq!(ensure_supported_join(&filtered), Err(JoinUnsupported::Filter));

    let mut expression_key = inner_join(false);
    expression_key.on[0].0 = Expr::Literal(ScalarValue::Int64(Some(1)));
    assert_eq!(
        ensure_supported_join(&expression_key),
        Err(JoinUnsupported::KeyNotColumns { key: 0 })
    );

    assert!(
        ensure_supported_join(&inner_join(true)).is_err(),
        "nullable keys must fail closed until validity bits are constrained"
    );
    assert!(
        ensure_supported_join(&inner_join_with_nullable_payload(true)).is_err(),
        "nullable non-key payloads must also fail closed: NULL and zero share an encoding"
    );
    ensure_supported_join(&inner_join_with_nullable_payload(false))
        .expect("fully nonnullable join payloads remain supported");
}

#[test]
fn unsupported_has_one_modes_keep_the_complete_join_protocol() {
    let mut gadget = JoinGadget::new(inner_join(false), JoinMode::ONE_TO_MANY);
    assert_eq!(gadget.join_mode(), JoinMode::MANY_TO_MANY);
    assert_eq!(gadget.checks().len(), 3);

    gadget.set_join_mode(JoinMode::MANY_TO_ONE);
    assert_eq!(gadget.join_mode(), JoinMode::MANY_TO_MANY);
    assert_eq!(gadget.checks().len(), 3);
}

#[test]
fn output_provenance_partition_is_positional_and_disjoint() {
    let mut tracker = Tracker { next: 0 };
    let left_field = Field::new("value", DataType::Int64, false)
        .with_metadata(tagged(&[("tt.qualifier", "left"), ("tt.pk", "true")]));
    let left = tracker.table(vec![left_field], false);
    let right = tracker.table(vec![qualified_field("value", "right")], false);
    let output = tracker.table(
        vec![qualified_field("value", "left"), qualified_field("value", "right")],
        true,
    );
    let left_output = output_lookup_base(&output, &left, &right, JoinSide::Left)
        .expect("constraint metadata stripping must not change provenance");
    assert_eq!(data_width(&left_output), 1);
    assert_eq!(left_output.cols[0].poly, output.cols[0].primary.poly);

    let reordered = tracker.table(
        vec![qualified_field("value", "right"), qualified_field("value", "left")],
        true,
    );
    assert_eq!(
        output_lookup_base(&reordered, &left, &right, JoinSide::Left).err(),
        Some(JoinError::OutputField { index: 0 }),
        "a right/left payload swap must not be accepted as left/right provenance"
    );

    let overlapping_right_field = || {
        Field::new("value", DataType::Int64, false)
            .with_metadata(tagged(&[("tt.qualifier", "left"), ("tt.side_marker", "right")]))
    };
    let overlapping_right = tracker.table(vec![overlapping_right_field()], false);
    let overlapping_output = tracker
        .table(vec![qualified_field("value", "left"), overlapping_right_field()], true);
    assert_eq!(
        output_lookup_base(&overlapping_output, &left, &overlapping_right, JoinSide::Left).err(),
        Some(JoinError::NotDisjoint),
        "unaliased self-join payloads must fail closed instead of sharing one commitment"
    );
}

#[test]
fn lookup_folding_and_source_columns_fail_closed_on_shape_mismatch() {
    let payload = Table::of(
        vec![
            TrackedColumn { field: qualified_field("a", "left"), poly: poly(1) },
            TrackedColumn { field: qualified_field("b", "left"), poly: poly(2) },
        ],
        1,
    );
    assert_eq!(
        fold_lookup_table(&payload, 1),
        Err(JoinError::FoldWidth { fields: 2, challenges: 1 }),
        "release builds must not truncate lookup folds with zip"
    );
    assert_eq!(fold_lookup_table(&payload, 2), Ok(Fold::All));

    let colliding = Table::of(
        vec![TrackedColumn { field: qualified_field(SRC_LEFT_COL_NAME, "left"), poly: poly(3) }],
        1,
    );
    assert_eq!(
        append_tracked_col(
            &colliding,
            Field::new(SRC_LEFT_COL_NAME, DataType::Int64, false),
            poly(4),
        )
        .err(),
        Some(JoinError::Collision),
        "the internal source index must not overwrite a same-named payload"
    );
    assert_eq!(fold_lookup_table(&colliding, 1), Ok(Fold::Single(0)));
}

#[test]
fn row_domain_validation_rejects_heterogeneous_commitments() {
    let wide = Poly { log_size: 2, ..poly(2) };
    let malformed = GroupedTable {
        schema: None,
        cols: vec![
            single(qualified_field("first", "left"), poly(1)),
            single(qualified_field("second", "left"), wide),
        ],
        log_size: 1,
    };
    assert!(
        !malformed.has_one_row_domain(),
        "row-domain validation must not rely on debug-only constructor checks"
    );
    assert_eq!(
        validated_data(&malformed, JoinLabel::Output).err(),
        Some(JoinError::RowDomain(JoinLabel::Output))
    );

    let hidden_activator = GroupedTable {
        schema: None,
        cols: vec![GroupedCol {
            field: qualified_field("hidden_activator", "left"),
            primary: Bundle { poly: poly(1), activator: Some(wide) },
            row_aux: vec![],
            side_aux: vec![],
        }],
        log_size: 1,
    };
    assert!(
        !hidden_activator.has_one_row_domain(),
        "paired row activators must be validated even though flat maps omit them"
    );

    let constant_activator = GroupedTable {
        schema: None,
        cols: vec![
            single(qualified_field("first", "left"), poly(1)),
            single(activator_field(), Poly { id: PolyId::One, tracker: 0, log_size: 2 }),
        ],
        log_size: 1,
    };
    assert!(
        !constant_activator.has_one_row_domain(),
        "a constant system activator must use the table's exact row domain"
    );

    let wellformed = GroupedTable {
        schema: None,
        cols: vec![
            single(qualified_field("first", "left"), poly(1)),
            single(activator_field(), Poly { id: PolyId::One, tracker: 0, log_size: 1 }),
        ],
        log_size: 1,
    };
    assert!(wellformed.has_one_row_domain());
}

#[test]
fn source_pair_nodup_uses_runtime_source_commitments() {
    let mut tracker = Tracker { next: 0 };
    let output = tracker.table(vec![], true);
    let left_src =
        tracker.table(vec![Field::new(SRC_LEFT_COL_NAME, DataType::Int64, false)], false);
    let right_src =
        tracker.table(vec![Field::new(SRC_RIGHT_COL_NAME, DataType::Int64, false)], false);
    let same_named_right_source =
        tracker.table(vec![Field::new(SRC_LEFT_COL_NAME, DataType::Int64, false)], false);

    let rebound = nodup_table_from_output(&output, &left_src, &same_named_right_source)
        .expect("source-pair coordinates are rebound to distinct internal names");
    assert_eq!(data_width(&rebound), 2);
    assert_eq!(
        rebound.poly_by_name(SRC_RIGHT_COL_NAME),
        Some(same_named_right_source.cols[0].primary.poly)
    );

    let mismatched_source = GroupedTable {
        schema: schema(vec![Field::new(SRC_LEFT_COL_NAME, DataType::Int64, false)]),
        cols: vec![single(
            Field::new(SRC_LEFT_COL_NAME, DataType::Int64, false),
            Poly { log_size: 2, ..poly(90) },
        )],
        log_size: 2,
    };
    assert_eq!(
        nodup_table_from_output(&output, &mismatched_source, &right_src).err(),
        Some(JoinError::SourceDomain),
        "source indices on a different output row domain must fail closed"
    );

    let bound = nodup_table_from_output(&output, &left_src, &right_src)
        .expect("bind runtime source pairs to NoDup");
    assert_eq!(bound.activator(), Some(output.cols[0].primary.poly));
    assert_eq!(bound.poly_by_name(SRC_LEFT_COL_NAME), Some(left_src.cols[0].primary.poly));
    assert_eq!(bound.poly_by_name(SRC_RIGHT_COL_NAME), Some(right_src.cols[0].primary.poly));
}

fn text_field(name: &str, qualifier: &str) -> Field {
    Field::new(name, DataType::Utf8, false).with_metadata(tagged(&[("tt.qualifier", qualifier)]))
}

fn segment(suffix: &str, n: usize) -> Segment {
    Segment { suffix: suffix.to_string(), bundle: Bundle { poly: poly(n), activator: None } }
}

const LEFT_KEYS: KeysOf = KeysOf { side: JoinSide::Left, output: false };

#[test]
fn match_pair_input_selection_preserves_repeated_multisegment_keys() {
    let table = GroupedTable {
        schema: None,
        cols: vec![
            GroupedCol {
                field: text_field("key", "left"),
                primary: Bundle { poly: poly(1), activator: None },
                row_aux: vec![segment("__length", 2)],
                side_aux: vec![segment("__chars", 3)],
            },
            single(row_id_field(), poly(4)),
            single(activator_field(), poly(5)),
        ],
        log_size: 1,
    };
    let repeated = || Column::new(bare("left"), "key");
    let selected = select_tracked_columns(
        &table,
        &vec![
            repeated(),
            repeated(),
            Column::new_unqualified(ROW_ID_COL_NAME),
            Column::new_unqualified(ACTIVATOR_COL_NAME),
        ],
        LEFT_KEYS,
    )
    .expect("select repeated grouped keys");
    for index in 0..2 {
        let expected_name = format!("__mp_key_{index}");
        let col = selected
            .cols
            .iter()
            .find(|c| c.field.name == expected_name)
            .expect("positionally aliased repeated key");
        assert_eq!(1 + col.row_aux.len(), 2);
        assert_eq!(col.side_aux.len(), 1);
    }
    let (flat, segments) = selected.flatten();
    let data = flat
        .iter()
        .filter(|c| c.field.name != ACTIVATOR_COL_NAME && c.field.name != ROW_ID_COL_NAME)
        .count();
    assert_eq!(data, 4);
    assert_eq!(segments, 6);
}

#[test]
fn qualified_key_selection_never_falls_back_by_name() {
    let table = GroupedTable {
        schema: None,
        cols: vec![single(text_field("key", "left"), poly(1))],
        log_size: 1,
    };
    assert_eq!(
        select_tracked_columns(&table, &vec![Column::new(bare("wrong"), "key")], LEFT_KEYS).err(),
        Some(JoinError::MissingKey { side: JoinSide::Left, output: false, key: 0 }),
        "a qualified key must not select a unique same-named column from another source"
    );
}

#[test]
fn ambiguous_keys_are_refused() {
    let table = GroupedTable {
        schema: None,
        cols: vec![
            single(text_field("key", "left"), poly(1)),
            single(text_field("key", "right"), poly(2)),
        ],
        log_size: 1,
    };
    assert_eq!(
        select_tracked_columns(&table, &vec![Column::new_unqualified("key")], LEFT_KEYS).err(),
        Some(JoinError::AmbiguousKey {
            side: JoinSide::Left,
            output: false,
            key: 0,
            candidates: 2
        })
    );
}

/// The tables of a join of two inputs by their keys.
fn joined_tables() -> (GroupedTable, GroupedTable, GroupedTable, GroupedTable, GroupedTable) {
    let mut tracker = Tracker { next: 0 };
    let left = tracker.table(vec![qualified_field("key", "left")], true);
    let right = tracker.table(vec![qualified_field("key", "right")], true);
    let output = tracker
        .table(vec![qualified_field("key", "left"), qualified_field("key", "right")], true);
    let src_left =
        tracker.table(vec![Field::new(SRC_LEFT_COL_NAME, DataType::Int64, false)], false);
    let src_right =
        tracker.table(vec![Field::new(SRC_RIGHT_COL_NAME, DataType::Int64, false)], false);
    (output, left, right, src_left, src_right)
}

#[test]
fn the_checks_of_a_join_are_bound_to_its_output() {
    let (output, left, right, src_left, src_right) = joined_tables();
    let wiring =
        initialize_gadgets(&inner_join(false), &output, &left, &right, &src_left, &src_right)
            .expect("a supported join");
    let activator = output.cols[2].primary.poly;
    assert_eq!(wiring.activator.poly_by_name(BOOL_COL_NAME), Some(activator));
    assert_eq!(wiring.source_pairs.activator(), Some(activator));
    assert_eq!(wiring.match_pair.output_activator.activator(), Some(activator));
    assert_eq!(wiring.match_pair.input_left.cols[0].field.name, "__mp_key_0");
    assert_eq!(wiring.match_pair.input_left.cols[0].primary.poly, left.cols[0].primary.poly);
    assert_eq!(wiring.match_pair.output_right_keys.cols[0].field.name, "__mp_output_key_0");
    assert_eq!(
        wiring.match_pair.output_right_keys.cols[0].primary.poly,
        output.cols[1].primary.poly
    );
    assert_eq!(
        initialize_gadgets(&inner_join(true), &output, &left, &right, &src_left, &src_right).err(),
        Some(JoinFault::Unsupported(JoinUnsupported::NullablePayload {
            side: JoinSide::Left,
            index: 0
        }))
    );
}

#[test]
fn lookups_fold_both_sides_alike() {
    let (output, left, right, src_left, src_right) = joined_tables();
    let lookups = join_lookups(
        &inner_join(false),
        &output,
        &left,
        &right,
        (&src_left, &src_right),
        (poly(100), poly(101)),
    )
    .expect("a supported join");
    for (included, searched, index, source) in [
        (&lookups.included_left, &lookups.searched_left, poly(100), &src_left),
        (&lookups.included_right, &lookups.searched_right, poly(101), &src_right),
    ] {
        assert_eq!(data_width(included), 2);
        assert_eq!(fold_lookup_table(included, 2), fold_lookup_table(searched, 2));
        let last = |t: &Table| t.cols.iter().find(|c| c.field.name.starts_with("src_")).map(|c| c.poly);
        assert_eq!(last(searched), Some(index));
        assert_eq!(last(included), Some(source.cols[0].primary.poly));
    }
}

#[test]
fn row_numbers_come_from_the_input_or_are_counted() {
    let mut tracker = Tracker { next: 0 };
    let numbered = tracker.table(vec![qualified_field("a", "t"), row_id_field()], true);
    let plain = tracker.table(vec![qualified_field("a", "t")], true);
    let empty = tracker.table(vec![], true);
    for party in [Party::Prover, Party::Verifier] {
        assert_eq!(
            index_poly(&numbered, party),
            Some(IndexSource::Column(numbered.cols[1].primary.poly))
        );
    }
    assert_eq!(index_poly(&plain, Party::Prover), Some(IndexSource::Count { log_size: 1 }));
    assert_eq!(
        index_poly(&plain, Party::Verifier),
        Some(IndexSource::CountOver(plain.cols[0].primary.poly))
    );
    assert_eq!(index_poly(&empty, Party::Prover), Some(IndexSource::Count { log_size: 1 }));
    assert_eq!(index_poly(&empty, Party::Verifier), None);
}

#[test]
fn the_schema_of_a_table_lists_its_segments() {
    let mut tracker = Tracker { next: 0 };
    let mut short = tracker.table(vec![qualified_field("a", "t"), qualified_field("b", "t")], false);
    short.schema = schema(vec![qualified_field("a", "t")]);
    assert_eq!(
        validated_data(&short, JoinLabel::LeftInput).err(),
        Some(JoinError::SchemaWidth { label: JoinLabel::LeftInput, schema: 1, actual: 2 })
    );
    short.schema = schema(vec![qualified_field("a", "t"), qualified_field("c", "t")]);
    assert_eq!(
        validated_data(&short, JoinLabel::LeftInput).err(),
        Some(JoinError::FieldOrder { label: JoinLabel::LeftInput, index: 1 })
    );
    let twice = GroupedTable {
        schema: None,
        cols: vec![
            single(qualified_field("a", "t"), poly(1)),
            single(qualified_field("a", "t"), poly(2)),
        ],
        log_size: 1,
    };
    assert_eq!(
        validated_data(&twice, JoinLabel::RightInput).err(),
        Some(JoinError::FlatWidth { label: JoinLabel::RightInput, declared: 2, actual: 1 })
    );
    let narrow = tracker.table(vec![qualified_field("a", "t")], true);
    assert_eq!(
        output_lookup_base(&narrow, &narrow, &narrow, JoinSide::Left).err(),
        Some(JoinError::OutputWidth { actual: 1, expected: 2 })
    );
}

#[test]
fn appended_source_rows_lie_over_the_rows_of_the_table() {
    let field = || Field::new("src_left", DataType::Int64, true);
    let table = Table::of(
        vec![TrackedColumn { field: qualified_field("a", "t"), poly: poly(1) }],
        1,
    );
    let appended = append_tracked_col(&table, field(), poly(2)).expect("same rows");
    assert_eq!(appended.cols.len(), 2);
    assert_eq!(appended.cols[1].poly, poly(2));
    assert_eq!(
        append_tracked_col(&table, field(), Poly { log_size: 3, ..poly(2) }).err(),
        Some(JoinError::LogSize { actual: 3, expected: 1 })
    );
    assert_eq!(
        append_tracked_col(&table, field(), Poly { tracker: 1, ..poly(2) }).err(),
        Some(JoinError::Trackers)
    );
    assert_eq!(
        append_tracked_col(&table, activator_field(), poly(2)).err(),
        Some(JoinError::Width)
    );
    assert_eq!(
        append_tracked_col(&Table::of(vec![], 1), field(), poly(2)).err(),
        Some(JoinError::NoColumns)
    );
    let uneven = Table::of(
        vec![TrackedColumn {
            field: qualified_field("a", "t"),
            poly: Poly { log_size: 2, ..poly(1) },
        }],
        1,
    );
    assert_eq!(
        append_tracked_col(&uneven, field(), poly(2)).err(),
        Some(JoinError::RowDomain(JoinLabel::Lookup))
    );
}

#[test]
fn source_tables_have_one_column_and_an_active_output() {
    let mut tracker = Tracker { next: 0 };
    let output = tracker.table(vec![], true);
    let inactive = tracker.table(vec![qualified_field("a", "t")], false);
    let two = tracker.table(vec![qualified_field("a", "t"), qualified_field("b", "t")], false);
    let one = tracker.table(vec![qualified_field("a", "t")], false);
    assert_eq!(
        single_data_poly(&two, JoinLabel::SrcLeft).err(),
        Some(JoinError::SourceColumns(JoinLabel::SrcLeft))
    );
    assert_eq!(single_data_poly(&one, JoinLabel::SrcLeft), Ok(one.cols[0].primary.poly));
    assert_eq!(bool_table_from_output(&inactive).err(), Some(JoinError::MissingActivator));
    assert_eq!(
        nodup_table_from_output(&inactive, &one, &one).err(),
        Some(JoinError::MissingActivator)
    );
    let mut foreign = tracker.table(vec![qualified_field("a", "t")], false);
    foreign.cols[0].primary.poly.tracker = 7;
    assert_eq!(
        nodup_table_from_output(&output, &foreign, &one).err(),
        Some(JoinError::SourceTrackers)
    );
    assert_eq!(data_width(&input_lookup_base(&two).expect("a table of two columns")), 2);
}

#[test]
fn pairs_are_counted_over_active_inputs_of_column_keys() {
    let (output, left, right, _, _) = joined_tables();
    let mut tracker = Tracker { next: 50 };
    let inactive = tracker.table(vec![qualified_field("key", "left")], false);
    assert_eq!(
        build_match_pair_tables(&inner_join(false), &output, &inactive, &right).err(),
        Some(JoinError::MissingSideActivator(JoinSide::Left))
    );
    let mut computed = inner_join(false);
    computed.on[0].1 = Expr::Literal(ScalarValue::Int64(Some(1)));
    assert_eq!(
        build_match_pair_tables(&computed, &output, &left, &right).err(),
        Some(JoinError::KeyNotColumn)
    );
    assert!(join_key_columns(&computed, JoinSide::Right).is_none());
    let keys = join_key_columns(&computed, JoinSide::Left).expect("the left keys are columns");
    let ordered = ordered_join_columns(keys, true);
    let names: Vec<String> = ordered.iter().map(|c| c.flat_name()).collect();
    assert_eq!(names, vec!["left.key", ROW_ID_COL_NAME, ACTIVATOR_COL_NAME]);
}

#[test]
fn a_row_that_is_not_in_the_input_is_found() {
    let rows = |v: &[u8]| v.iter().map(|b| vec![*b, 0]).collect::<Vec<Vec<u8>>>();
    assert_eq!(find_missing_row(&rows(&[1, 2, 1]), &rows(&[2, 1, 3])), None);
    assert_eq!(find_missing_row(&rows(&[1, 4, 5]), &rows(&[2, 1, 3])), Some(1));
    assert_eq!(find_missing_row(&rows(&[]), &rows(&[])), None);
    assert_eq!(find_missing_row(&vec![vec![1]], &rows(&[1])), Some(0));
}

#[test]
fn unsupported_pairs_name_their_fault() {
    let mut unresolved = inner_join(false);
    unresolved.on[0].0 = Expr::Column(Column::new(bare("left"), "other"));
    assert_eq!(
        ensure_supported_join(&unresolved),
        Err(JoinUnsupported::UnresolvedLeft { key: 0 })
    );
    let mut unresolved = inner_join(false);
    unresolved.on[0].1 = Expr::Column(Column::new(bare("left"), "key"));
    assert_eq!(
        ensure_supported_join(&unresolved),
        Err(JoinUnsupported::UnresolvedRight { key: 0 })
    );
    let mut types = inner_join(false);
    types.right.fields[0].field.data_type = DataType::Int32;
    assert_eq!(ensure_supported_join(&types), Err(JoinUnsupported::KeyTypes { key: 0 }));
    // A system column may be null, so only a key can be of this kind.
    let mut system = inner_join(false);
    for side in [&mut system.left, &mut system.right] {
        side.fields[0].field = Field::new(ROW_ID_COL_NAME, DataType::Int64, true);
    }
    system.on[0] = (
        Expr::Column(Column::new(bare("left"), ROW_ID_COL_NAME)),
        Expr::Column(Column::new(bare("right"), ROW_ID_COL_NAME)),
    );
    assert_eq!(
        ensure_supported_join(&system),
        Err(JoinUnsupported::NullableKey { key: 0, left: true, right: true })
    );
}

#[test]
fn errors_of_the_wiring_are_told_apart_by_party() {
    let e = JoinError::LogSize { actual: 3, expected: 1 };
    assert_eq!(
        e.message(Party::Prover, ""),
        "Join proof wiring: source index has log size 3, expected 1"
    );
    assert_eq!(
        e.message(Party::Verifier, ""),
        "Join proof wiring: source-index oracle has log size 3, expected 1"
    );
    assert_eq!(
        JoinError::MissingKey { side: JoinSide::Right, output: true, key: 0 }
            .message(Party::Prover, "right.key"),
        "Join proof wiring: join output-right table is missing column right.key"
    );
    assert_eq!(JoinError::RowDomain(JoinLabel::Output).message(Party::Prover, "as told"), "as told");
    let fault = JoinFault::Wiring(JoinError::FoldWidth { fields: 2, challenges: 1 });
    assert_eq!(
        fault.message(&inner_join(false), Party::Verifier, ""),
        "Join proof wiring: lookup oracle table has 2 data fields but 1 fold challenges"
    );
}

#[test]
fn the_verifier_plans_pairs_of_source_rows() {
    let names: Vec<String> =
        verifier_pair_schema().fields.iter().map(|q| q.field.name.clone()).collect();
    assert!(names.iter().any(|n| n == SRC_LEFT_COL_NAME));
    assert!(names.iter().any(|n| n == SRC_RIGHT_COL_NAME));
    assert!(names.iter().any(|n| n == ACTIVATOR_COL_NAME));
}

#[test]
fn the_verifier_plans_a_zero_for_the_source_row() {
    let mut base = scan("l", &[("id", false)]);
    base.fields.push(QualifiedField { qualifier: None, field: row_id_field() });
    let exprs = verifier_output_side_exprs(&base, SRC_LEFT_COL_NAME);
    assert_eq!(exprs.len(), 2);
    match &exprs[0] {
        Expr::Column(c) => assert_eq!(c.flat_name(), "l.id"),
        other => panic!("unexpected expression {other:?}"),
    }
    match &exprs[1] {
        Expr::Alias { expr, relation: None, name } => {
            assert_eq!(name, SRC_LEFT_COL_NAME);
            match expr.as_ref() {
                Expr::Literal(ScalarValue::Int64(v)) => assert_eq!(*v, Some(0)),
                other => panic!("unexpected constant {other:?}"),
            }
        }
        other => panic!("unexpected expression {other:?}"),
    }
}
