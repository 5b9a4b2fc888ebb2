//! ORDER BY: which keys are accepted, and that the sortedness check is tied
//! to the key columns of the output.
use tt_core::children::{sort_children, ExprRole, ExprScope, NodeChild};
use tt_core::column::{add_virtual_witness, ScopeTable};
use tt_core::df_schema::{DfSchema, QualifiedField};
use tt_core::metadata::Metadata;
use tt_core::plan::{Column, Expr, Operator, ScalarValue, SortExpr, TableReference};
use tt_core::resolve::{resolve_sorts, Resolution};
use tt_core::schema::{DataType, Field};
use tt_core::sort::{
    build_output_sort_keys, check_gadget_plans, checked_output_hint, display, gadget_payloads,
    initialize_gadget_plans, initialize_gadgets, is_supported_sort_type, output_key_exprs,
    planned_sort_exprs, sort_specs, strip_row_id, validate_sort, wire_gadget, KeyFault,
    OrderPayload, OutputFault, Sort, SortError, INPUT_LABEL, OUTPUT_LABEL,
};
use tt_core::table::{
    activator_field, row_id_field, Party, Poly, PolyId, Table, TrackedColumn, ACTIVATOR_COL_NAME,
};

fn bare(name: &str) -> Option<TableReference> {
    Some(TableReference::Bare { table: name.to_string() })
}

fn entry(qualifier: Option<TableReference>, field: Field) -> QualifiedField {
    QualifiedField { qualifier, field }
}

fn validation_sort(
    fields: Vec<QualifiedField>,
    expr: Vec<SortExpr>,
    fetch: Option<usize>,
) -> Sort {
    Sort { expr, input: DfSchema { fields }, fetch }
}

fn field(name: &str, data_type: DataType, nullable: bool) -> Field {
    Field::new(name, data_type, nullable)
}

fn ascending(expr: Expr) -> SortExpr {
    SortExpr { expr, asc: true, nulls_first: false }
}

fn unqualified_key(name: &str) -> SortExpr {
    ascending(Expr::Column(Column::new_unqualified(name)))
}

fn qualified_key(relation: &str, name: &str) -> SortExpr {
    ascending(Expr::Column(Column::new(bare(relation), name)))
}

fn report(sort: &Sort, e: SortError) -> String {
    e.message(sort, Party::Prover, "detail", "expected")
}

fn refusal(sort: &Sort) -> String {
    report(sort, validate_sort(sort).expect_err("the sort must be refused"))
}

fn poly(n: usize) -> Poly {
    Poly { id: PolyId::Numbered(n), tracker: 0, log_size: 2 }
}

fn under(qualifier: &str, mut field: Field) -> Field {
    field.metadata =
        Metadata::new().with("tt.qualifier".to_string(), qualifier.to_string());
    field
}

fn col(field: Field, n: usize) -> TrackedColumn {
    TrackedColumn { field, poly: poly(n) }
}

/// A table of two qualified columns and an activator.
fn tracked_table(a: usize, b: usize, active: usize) -> Table {
    Table::of(
        vec![
            col(under("t", field("a", DataType::Int64, false)), a),
            col(under("t", field("b", DataType::Int64, false)), b),
            col(activator_field(), active),
        ],
        2,
    )
}

/// A sort of that table by the named columns.
fn table_sort(keys: Vec<SortExpr>) -> Sort {
    validation_sort(
        vec![
            entry(bare("t"), field("a", DataType::Int64, false)),
            entry(bare("t"), field("b", DataType::Int64, false)),
            entry(bare("t"), field(ACTIVATOR_COL_NAME, DataType::Boolean, false)),
        ],
        keys,
        None,
    )
}

fn id(table: &Table, name: &str) -> Poly {
    table.poly_by_name(name).expect("the column is there")
}

#[test]
fn direct_nonnullable_int64_key_is_supported() {
    let sort = validation_sort(
        vec![entry(None, field("key", DataType::Int64, false))],
        vec![unqualified_key("key")],
        None,
    );
    assert_eq!(validate_sort(&sort), Ok(()));
}

#[test]
fn empty_key_list_is_rejected() {
    let sort =
        validation_sort(vec![entry(None, field("key", DataType::Int64, false))], vec![], None);
    assert!(refusal(&sort).contains("at least one proved key"));
}

#[test]
fn embedded_fetch_is_rejected() {
    let sort = validation_sort(
        vec![entry(None, field("key", DataType::Int64, false))],
        vec![unqualified_key("key")],
        Some(1),
    );
    assert!(refusal(&sort).contains("embedded fetch"));
}

#[test]
fn nullable_key_is_rejected() {
    let sort = validation_sort(
        vec![entry(None, field("key", DataType::Int64, true))],
        vec![unqualified_key("key")],
        None,
    );
    assert!(refusal(&sort).contains("nullable ORDER BY key"));
}

#[test]
fn system_key_is_rejected() {
    let sort = validation_sort(
        vec![entry(None, field(ACTIVATOR_COL_NAME, DataType::Boolean, false))],
        vec![unqualified_key(ACTIVATOR_COL_NAME)],
        None,
    );
    assert!(refusal(&sort).contains("internal system column"));
}

#[test]
fn unsupported_key_type_is_rejected() {
    let sort = validation_sort(
        vec![entry(None, field("key", DataType::Utf8, false))],
        vec![unqualified_key("key")],
        None,
    );
    assert!(refusal(&sort).contains("unsupported ORDER BY key type"));
}

#[test]
fn dotted_key_name_is_rejected() {
    let sort = validation_sort(
        vec![entry(None, field("quoted.key", DataType::Int64, false))],
        vec![unqualified_key("quoted.key")],
        None,
    );
    assert!(refusal(&sort).contains("dots in key field names"));
}

#[test]
fn qualified_keys_resolve_exactly_and_duplicate_terminal_names_are_rejected() {
    let fields = || {
        vec![
            entry(bare("l"), field("id", DataType::Int64, false)),
            entry(bare("r"), field("id", DataType::Int64, false)),
        ]
    };
    let right = validation_sort(fields(), vec![qualified_key("r", "id")], None);
    assert_eq!(validate_sort(&right), Ok(()));

    let missing = validation_sort(fields(), vec![qualified_key("x", "id")], None);
    assert!(refusal(&missing).contains("does not resolve uniquely"));

    let ambiguous = validation_sort(fields(), vec![unqualified_key("id")], None);
    assert!(refusal(&ambiguous).contains("does not resolve uniquely"));

    let duplicate_terminal_names =
        validation_sort(fields(), vec![qualified_key("l", "id"), qualified_key("r", "id")], None);
    assert!(refusal(&duplicate_terminal_names).contains("duplicate unqualified key names"));
}

#[test]
fn missing_output_key_payload_is_rejected() {
    let sort = table_sort(vec![qualified_key("t", "a")]);
    let e = gadget_payloads(&sort, None, Some(tracked_table(1, 2, 3)), Some(tracked_table(4, 5, 6)))
        .expect_err("ORDER BY must fail closed when its output key is absent");
    assert_eq!(e, SortError::MissingSortKeys);
}

#[test]
fn missing_row_permutation_payload_is_rejected() {
    let sort = table_sort(vec![qualified_key("t", "a")]);
    for missing_label in [INPUT_LABEL, OUTPUT_LABEL] {
        let keep = |label: &str| {
            if label == missing_label {
                None
            } else {
                Some(tracked_table(1, 2, 3))
            }
        };
        let e = gadget_payloads(
            &sort,
            Some(tracked_table(4, 5, 6)),
            keep(INPUT_LABEL),
            keep(OUTPUT_LABEL),
        )
        .expect_err("ORDER BY must bind both sides of its row permutation");
        assert!(report(&sort, e).contains(missing_label));
    }
}

#[test]
fn sortcheck_uses_output_key_commitments() {
    let sort = table_sort(vec![qualified_key("t", "a")]);
    let payload = gadget_payloads(
        &sort,
        Some(tracked_table(7, 8, 9)),
        Some(tracked_table(1, 2, 3)),
        Some(tracked_table(4, 5, 6)),
    )
    .unwrap();
    assert_eq!(id(&payload.keys, "a"), poly(7), "Sortcheck must reuse the output's keys");
}

#[test]
fn expression_children_remain_input_scoped_for_planning() {
    let sort = table_sort(vec![
        qualified_key("t", "a"),
        SortExpr { asc: false, ..qualified_key("t", "b") },
    ]);
    let children = sort_children(&sort);
    // The input is the first child, the check the last.
    assert_eq!(children[0], NodeChild::Input);
    assert_eq!(children[3], NodeChild::Gadget);
    let scoped = children[1..3]
        .iter()
        .filter(|c| {
            matches!(
                c,
                NodeChild::Expr { role: ExprRole::SortKey, scope: ExprScope::Input, .. }
            )
        })
        .count();
    assert_eq!(scoped, 2, "both planning expressions must use input rows");
}

#[test]
fn sortcheck_uses_exact_output_tracker_ids_for_multicolumn_keys() {
    let sort = table_sort(vec![qualified_key("t", "a"), qualified_key("t", "b")]);
    let input = tracked_table(1, 2, 3);
    let output = tracked_table(4, 5, 6);
    // The planning expressions use the input's columns.
    let scopes = vec![ScopeTable { id: 0, table: Some(tracked_table(1, 2, 3)) }];
    for (name, expected) in [("a", poly(1)), ("b", poly(2))] {
        let (planned, _) = add_virtual_witness(&scopes, None, &Column::new(bare("t"), name))
            .expect("the column is in scope");
        assert_eq!(id(&planned, name), expected);
    }
    assert_ne!(id(&input, "a"), id(&output, "a"));
    assert_ne!(id(&input, "b"), id(&output, "b"));

    let tables = initialize_gadgets(&sort, Some(input), Some(output)).unwrap();
    let keys: Vec<Poly> = tables
        .keys
        .cols
        .iter()
        .filter(|c| c.field.name != ACTIVATOR_COL_NAME)
        .map(|c| c.poly)
        .collect();
    assert_eq!(keys, vec![poly(4), poly(5)]);
}

#[test]
fn computed_sort_keys_are_rejected_fail_closed() {
    for op in [Operator::Plus, Operator::Divide] {
        let key = ascending(Expr::BinaryExpr {
            left: Box::new(Expr::Column(Column::new_unqualified("a"))),
            op,
            right: Box::new(Expr::Column(Column::new_unqualified("b"))),
        });
        let sort = table_sort(vec![key]);
        let message = refusal(&sort);
        assert!(message.contains("unsupported ORDER BY key"));
        assert!(message.contains("only direct column keys"));
        assert_eq!(
            sort_children(&sort).len(),
            2,
            "an invalid key must not be lowered into an expression witness"
        );
    }
}

#[test]
fn output_key_resolution_never_discards_or_invents_a_qualifier() {
    let schema = DfSchema {
        fields: vec![
            entry(bare("l"), field("id", DataType::Int64, false)),
            entry(bare("r"), field("id", DataType::Int64, false)),
        ],
    };
    let requested =
        vec![qualified_key("r", "id"), qualified_key("x", "id"), unqualified_key("id")];
    let resolved = resolve_sorts(Resolution::Exact, &schema, &requested);
    assert_eq!(resolved.len(), requested.len());
    for (a, b) in resolved.iter().zip(&requested) {
        match (&a.expr, &b.expr) {
            (Expr::Column(x), Expr::Column(y)) => assert!(x.same(y)),
            _ => panic!("columns stay columns"),
        }
        assert_eq!((a.asc, a.nulls_first), (b.asc, b.nulls_first));
    }
}

fn qualified_id_table() -> Table {
    Table::of(
        vec![
            col(under("l", field("id", DataType::Int64, false)), 1),
            col(under("r", field("id", DataType::Int64, false)), 2),
            col(activator_field(), 3),
        ],
        2,
    )
}

fn qualified_id_sort(key: SortExpr) -> Sort {
    validation_sort(
        vec![
            entry(bare("l"), field("id", DataType::Int64, false)),
            entry(bare("r"), field("id", DataType::Int64, false)),
        ],
        vec![key],
        None,
    )
}

/// The same table as the other party tracks it.
fn oracles_of(table: &Table) -> Table {
    let cols = table
        .cols
        .iter()
        .map(|c| TrackedColumn {
            field: c.field.copy(),
            poly: Poly { id: c.poly.id, tracker: 1, log_size: c.poly.log_size },
        })
        .collect();
    Table::of(cols, table.log_size)
}

#[test]
fn tracked_output_key_selection_honors_qualifiers_on_both_sides() {
    let output = qualified_id_table();
    let right_sort = qualified_id_sort(qualified_key("r", "id"));
    let prover_keys = build_output_sort_keys(&output, &right_sort)
        .expect("the exact qualified output key should resolve");
    assert_eq!(prover_keys.cols.len(), 2);
    assert_eq!(prover_keys.cols[0].poly, poly(2));
    assert_ne!(prover_keys.cols[0].poly, poly(1));
    assert_eq!(
        prover_keys.activator(),
        output.activator(),
        "Sortcheck must reuse the exact output activator"
    );

    // The verifier selects the same columns among its oracles.
    let output_oracle = oracles_of(&output);
    let verifier_keys = build_output_sort_keys(&output_oracle, &right_sort)
        .expect("the exact qualified output key should resolve");
    assert_eq!(verifier_keys.cols.len(), 2);
    assert_eq!(verifier_keys.cols[0].poly, output_oracle.cols[1].poly);
    assert_eq!(verifier_keys.cols[0].poly.id, prover_keys.cols[0].poly.id);
    assert_ne!(verifier_keys.cols[0].poly, output_oracle.cols[0].poly);
    assert_eq!(
        verifier_keys.activator(),
        output_oracle.activator(),
        "the verifier must reuse the exact output activator oracle"
    );

    let missing = qualified_id_sort(qualified_key("missing", "id"));
    let e = build_output_sort_keys(&output, &missing)
        .expect_err("a missing qualifier must not fall back to another relation");
    assert!(report(&missing, e).contains("does not resolve uniquely"));

    let ambiguous = qualified_id_sort(unqualified_key("id"));
    let e = build_output_sort_keys(&output, &ambiguous)
        .expect_err("an ambiguous unqualified key must not pick the first relation");
    assert!(report(&ambiguous, e).contains("does not resolve uniquely"));
}

#[test]
fn tracked_output_key_schema_must_match_the_validated_logical_key() {
    let sort = table_sort(vec![unqualified_key("a")]);
    for (actual_type, nullable, expected_message) in [
        (DataType::Int64, true, "is nullable"),
        (DataType::UInt64, false, "expected `Int64`"),
    ] {
        let malformed = Table::of(
            vec![
                col(under("t", Field::new("a", actual_type, nullable)), 1),
                col(activator_field(), 2),
            ],
            2,
        );
        let e = build_output_sort_keys(&malformed, &sort)
            .expect_err("tracked output schema must match the validated Sort schema");
        // Both types are those of the fields that the error is about.
        let printed = |f: Option<Field>| format!("{:?}", f.expect("a field is at fault").data_type);
        let found = printed(e.column_field(&sort, &malformed));
        let expected = printed(e.key_field(&sort));
        let message = e.message(&sort, Party::Prover, &found, &expected);
        assert!(
            message.contains(expected_message),
            "expected `{expected_message}` in `{message}`"
        );
    }
}

#[test]
fn tracked_output_activator_must_be_boolean() {
    let sort = table_sort(vec![unqualified_key("a")]);
    let malformed = Table::of(
        vec![
            col(under("t", field("a", DataType::Int64, false)), 1),
            col(field(ACTIVATOR_COL_NAME, DataType::Int64, false), 2),
        ],
        2,
    );
    let e = build_output_sort_keys(&malformed, &sort)
        .expect_err("the output activator schema is part of the soundness boundary");
    assert!(report(&sort, e).contains("must be Boolean"));
}

#[test]
fn errors_name_the_fields_that_they_are_about() {
    let sort = table_sort(vec![unqualified_key("a")]);
    let active = field(ACTIVATOR_COL_NAME, DataType::Int64, false);
    let cols = |key: Field| vec![col(under("t", key), 1), col(active.copy(), 2)];
    let text = Table::of(cols(field("a", DataType::Utf8, false)), 2);
    let e = build_output_sort_keys(&text, &sort).expect_err("text has no bounded encoding");
    assert_eq!(e, SortError::Output { index: 0, fault: OutputFault::UnsupportedType });
    let found = e.column_field(&sort, &text).expect("the output has the column");
    assert!(found.data_type.same(&DataType::Utf8));
    let key = e.key_field(&sort).expect("the key resolves");
    assert!(key.data_type.same(&DataType::Int64));
    let malformed = Table::of(cols(field("a", DataType::Int64, false)), 2);
    let e = build_output_sort_keys(&malformed, &sort).expect_err("the activator is no truth value");
    assert_eq!(e, SortError::ActivatorNotBoolean);
    let found = e.column_field(&sort, &malformed).expect("the output has an activator");
    assert_eq!(found.name, ACTIVATOR_COL_NAME);
    assert!(e.key_field(&sort).is_none());
    assert!(SortError::NoKeys.column_field(&sort, &malformed).is_none());
}

#[test]
fn missing_lp_input_or_output_payload_is_rejected() {
    let sort = table_sort(vec![unqualified_key("a")]);
    for missing_output in [false, true] {
        let (input, output) = if missing_output {
            (Some(tracked_table(1, 2, 3)), None)
        } else {
            (None, Some(tracked_table(4, 5, 6)))
        };
        let e = initialize_gadgets(&sort, input, output)
            .expect_err("ORDER BY must fail closed when a row table is missing");
        let message = report(&sort, e);
        assert!(message.contains("ORDER BY"));
        assert!(message.contains("missing"));
    }
}

#[test]
fn production_wiring_overwrites_a_sorted_helper_with_the_actual_unsorted_output_key() {
    let sort = table_sort(vec![unqualified_key("a")]);
    let helper = tracked_table(7, 8, 9);
    let helper_id = id(&helper, "a");
    let mut payload = OrderPayload { input: None, output: None, keys: Some(helper) };
    // The plan replaces what was there by a table selected from its output.
    wire_gadget(
        &mut payload,
        &sort,
        Some(tracked_table(1, 2, 3)),
        Some(tracked_table(4, 5, 6)),
    )
    .unwrap();
    // The check hands on that exact table.
    let handed = gadget_payloads(&sort, payload.keys, payload.input, payload.output).unwrap();
    let output_id = poly(4);
    assert_ne!(helper_id, output_id, "test setup needs distinct commitments");
    assert_eq!(
        id(&handed.keys, "a"),
        output_id,
        "an independently sorted helper must not replace the actual output key"
    );
}

#[test]
fn a_refused_sort_leaves_the_payload_alone() {
    let sort = table_sort(vec![unqualified_key("a")]);
    let mut payload =
        OrderPayload { input: None, output: None, keys: Some(tracked_table(7, 8, 9)) };
    assert_eq!(
        wire_gadget(&mut payload, &sort, Some(tracked_table(1, 2, 3)), None),
        Err(SortError::MissingOutputTable)
    );
    assert!(payload.input.is_none() && payload.output.is_none());
    assert_eq!(id(&payload.keys.expect("the helper"), "a"), poly(7));
}

#[test]
fn only_bounded_integers_are_sorted() {
    for t in [DataType::Int8, DataType::Int64, DataType::UInt64, DataType::Date32] {
        assert!(is_supported_sort_type(&t));
    }
    for t in [DataType::Utf8, DataType::Boolean, DataType::Null] {
        assert!(!is_supported_sort_type(&t));
    }
}

#[test]
fn specifications_keep_name_and_direction() {
    let specs = sort_specs(&table_sort(vec![SortExpr {
        expr: Expr::Column(Column::new(bare("t"), "a")),
        asc: false,
        nulls_first: true,
    }]))
    .expect("the key is a column");
    assert_eq!(specs.len(), 1);
    assert_eq!(specs[0].name, "t.a");
    assert!(!specs[0].asc);
    assert!(specs[0].nulls_first);
}

#[test]
fn row_numbers_are_stripped() {
    let table = Table::of(
        vec![col(field("a", DataType::Int64, false), 1), col(row_id_field(), 2)],
        2,
    );
    let stripped = strip_row_id(table);
    assert_eq!(stripped.cols.len(), 1);
    assert_eq!(stripped.cols[0].poly, poly(1));
}

#[test]
fn planned_keys_are_counted() {
    let schema = DfSchema {
        fields: vec![
            entry(None, field("a", DataType::Int64, false)),
            entry(None, field(ACTIVATOR_COL_NAME, DataType::Boolean, false)),
        ],
    };
    assert_eq!(checked_output_hint(Some(&schema), 1), Ok(()));
    assert_eq!(
        checked_output_hint(Some(&schema), 2),
        Err(SortError::HintKeys { actual: 1, expected: 2 })
    );
}

#[test]
fn the_text_of_a_sort_lists_its_keys() {
    let text = display("TableScan", &vec!["a ASC".to_string()], None);
    assert!(text.contains("TableScan"));
    assert!(text.contains("a ASC"));
}

fn fault(sort: &Sort) -> Option<SortError> {
    validate_sort(sort).err()
}

fn key_fault(sort: &Sort) -> Option<(usize, KeyFault)> {
    match fault(sort) {
        Some(SortError::Key { index, fault }) => Some((index, fault)),
        _ => None,
    }
}

#[test]
fn every_refusal_of_a_sort_has_its_reason() {
    let one = |f: Field, k: SortExpr| validation_sort(vec![entry(None, f)], vec![k], None);
    let int64 = || field("key", DataType::Int64, false);
    assert_eq!(
        fault(&validation_sort(vec![entry(None, int64())], vec![], None)),
        Some(SortError::NoKeys)
    );
    assert_eq!(
        fault(&validation_sort(vec![entry(None, int64())], vec![unqualified_key("key")], Some(1))),
        Some(SortError::EmbeddedFetch)
    );
    let literal = ascending(Expr::Literal(ScalarValue::Int64(Some(1))));
    assert_eq!(key_fault(&one(int64(), literal)), Some((0, KeyFault::NotColumn)));
    assert_eq!(
        key_fault(&one(activator_field(), unqualified_key(ACTIVATOR_COL_NAME))),
        Some((0, KeyFault::SystemColumn))
    );
    assert_eq!(
        key_fault(&one(int64(), unqualified_key("other"))),
        Some((0, KeyFault::Unresolved))
    );
    assert_eq!(
        key_fault(&one(field("key", DataType::Int64, true), unqualified_key("key"))),
        Some((0, KeyFault::Nullable))
    );
    assert_eq!(
        key_fault(&one(field("key", DataType::Utf8, false), unqualified_key("key"))),
        Some((0, KeyFault::UnsupportedType))
    );
    assert_eq!(
        key_fault(&one(field("a.b", DataType::Int64, false), unqualified_key("a.b"))),
        Some((0, KeyFault::DottedName))
    );
    let twice = validation_sort(
        vec![entry(None, int64())],
        vec![unqualified_key("key"), unqualified_key("key")],
        None,
    );
    assert_eq!(key_fault(&twice), Some((1, KeyFault::DuplicateName)));
}

#[test]
fn every_refusal_of_an_output_has_its_reason() {
    let sort = table_sort(vec![unqualified_key("a")]);
    let of = |cols: Vec<TrackedColumn>| build_output_sort_keys(&Table::of(cols, 2), &sort).err();
    let a = |t: DataType, nullable: bool| col(under("t", field("a", t, nullable)), 1);
    let key = |fault: OutputFault| Some(SortError::Output { index: 0, fault });
    assert_eq!(of(vec![col(activator_field(), 2)]), key(OutputFault::Found(0)));
    assert_eq!(
        of(vec![a(DataType::Int64, true), col(activator_field(), 2)]),
        key(OutputFault::Nullable)
    );
    assert_eq!(
        of(vec![a(DataType::Utf8, false), col(activator_field(), 2)]),
        key(OutputFault::UnsupportedType)
    );
    assert_eq!(
        of(vec![a(DataType::UInt64, false), col(activator_field(), 2)]),
        key(OutputFault::WrongType)
    );
    assert_eq!(of(vec![a(DataType::Int64, false)]), Some(SortError::MissingActivator));
    assert_eq!(
        of(vec![
            a(DataType::Int64, false),
            col(activator_field(), 2),
            col(under("t", activator_field()), 3),
        ]),
        Some(SortError::MultipleActivators)
    );
    assert_eq!(
        of(vec![
            a(DataType::Int64, false),
            col(field(ACTIVATOR_COL_NAME, DataType::Int64, false), 2),
        ]),
        Some(SortError::ActivatorNotBoolean)
    );
    let table = || Some(tracked_table(1, 2, 3));
    assert_eq!(
        initialize_gadgets(&sort, None, table()).err(),
        Some(SortError::MissingInputTable)
    );
    assert_eq!(
        initialize_gadgets(&sort, table(), None).err(),
        Some(SortError::MissingOutputTable)
    );
    assert_eq!(
        gadget_payloads(&sort, table(), None, table()).err(),
        Some(SortError::MissingOrderInput)
    );
    assert_eq!(
        gadget_payloads(&sort, table(), table(), None).err(),
        Some(SortError::MissingOrderOutput)
    );
    assert_eq!(checked_output_hint(None, 1), Err(SortError::MissingSortKeys));
    assert_eq!(initialize_gadget_plans(&sort, None).err(), Some(SortError::MissingPlan));
    assert_eq!(check_gadget_plans(&sort, None), Err(SortError::MissingSortKeys));
    let inactive = DfSchema { fields: vec![entry(None, field("a", DataType::Int64, false))] };
    assert_eq!(checked_output_hint(Some(&inactive), 1), Err(SortError::HintActivator));
}

#[test]
fn planned_rows_are_active_first_and_keep_the_order_of_ties() {
    let input = DfSchema {
        fields: vec![
            entry(None, field("a", DataType::Int64, false)),
            entry(None, row_id_field()),
        ],
    };
    let sort = validation_sort(
        vec![entry(None, field("a", DataType::Int64, false)), entry(None, row_id_field())],
        vec![unqualified_key("a")],
        None,
    );
    let keys: Vec<String> = planned_sort_exprs(&input, &sort)
        .iter()
        .map(|k| match &k.expr {
            Expr::Column(c) => c.flat_name(),
            _ => panic!("a column is expected"),
        })
        .collect();
    assert_eq!(keys, vec![ACTIVATOR_COL_NAME, "a", "__row_id__"]);
    assert_eq!(output_key_exprs(&input, &sort).len(), 2);
    assert_eq!(initialize_gadget_plans(&sort, Some(&input)).expect("a provable sort").len(), 2);
    assert_eq!(check_gadget_plans(&sort, Some(&input)), Err(SortError::HintActivator));
}
