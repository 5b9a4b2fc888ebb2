//! The stored form of plans and trees: what is stored is read back, and what
//! has no stored form is refused. Also the trees of plan nodes and the
//! rematerialization operator.
use datafusion_common::DFSchema;
use datafusion_expr::{lit, EmptyRelation, Filter, LogicalPlan as EnginePlan};
use std::cell::RefCell;
use std::sync::Arc;
use tt_core::aggregate_function::input_label;
use tt_core::codec::{ColumnRepr, ExprRepr, LogicalPlanRepr, ScalarValueRepr, SubqueryRepr};
use tt_core::codec_types::{
    reference_from_text, CodecError, DataTypeRepr, FieldRepr, FunctionRegistry,
    JoinConstraintRepr, JoinModeRepr, JoinTypeRepr, OperatorRepr, SchemaRepr,
};
use tt_core::constraints::Constraints;
use tt_core::df_schema::{DfSchema, QualifiedField};
use tt_core::join_mode::JoinMode;
use tt_core::metadata::Metadata;
use tt_core::nodes::{
    apply_join_modes, collect_join_modes, deserialize_tree, display_with_inputs, find_parent_id,
    from_expr, from_lp, lookup_super_multiplicities_node, parent_child_id, read_stored_tree,
    serialize_tree, structural_path_to_node, ArenaEntry, ExprKind, Node, NodeKind, PlanKind,
    TreeRepr,
};
use tt_core::plan::{
    Column, Expr, JoinConstraint, JoinType, LogicalPlan, NullTreatment, Operator, OtherPlan,
    ResultCheckMode, ScalarValue, Schema, SortExpr, TableReference,
};
use tt_core::rematerialize::{
    active_rows, add_virtual_witness, build_output_steps, compaction_source, display,
    initialize_gadgets, output_hint, read_weight, remat_contig_key, wrap_logical_plan, RematError,
    RematerializeLogicalNode,
};
use tt_core::schema::{DataType, Field, TimeUnit};
use tt_core::table::{
    activator_field, row_id_field, Poly, PolyId, Table, TrackedColumn, ACTIVATOR_COL_NAME,
    ROW_ID_COL_NAME,
};

fn bare(name: &str) -> TableReference {
    TableReference::Bare { table: name.to_string() }
}

fn scan(name: &str) -> LogicalPlan {
    LogicalPlan::TableScan {
        table_name: bare(name),
        schema: Schema {
            fields: vec![Field::new("value", DataType::Int64, false)],
            metadata: Metadata::new().with("origin".to_string(), "test".to_string()),
        },
        projection: Some(vec![0]),
        filters: vec![],
        fetch: None,
    }
}

fn registry() -> FunctionRegistry {
    FunctionRegistry {
        aggregates: vec![("max".to_string(), "max".to_string())],
        scalars: vec![("substr".to_string(), "substr".to_string())],
    }
}

/// An engine that keeps every operator as it is.
fn kept(op: &LogicalPlan) -> Option<LogicalPlan> {
    Some(op.copy())
}

/// What the query engine makes of filters by a constant or by an alias of one;
/// other operators are kept.
fn built(op: &LogicalPlan) -> Option<LogicalPlan> {
    let (predicate, input, having) = match op {
        LogicalPlan::Filter { predicate, input, having } => (predicate, input, *having),
        _ => return kept(op),
    };
    let empty = EnginePlan::EmptyRelation(EmptyRelation {
        produce_one_row: false,
        schema: Arc::new(DFSchema::empty()),
    });
    let constant = |e: &Expr| match e {
        Expr::Literal(ScalarValue::Int64(v)) => lit(v.expect("the constant is known")),
        Expr::Literal(ScalarValue::Boolean(v)) => lit(v.expect("the constant is known")),
        other => panic!("unexpected constant {other:?}"),
    };
    let asked = match predicate {
        Expr::Alias { expr, name, .. } => constant(expr).alias(name),
        other => constant(other),
    };
    let filter = Filter::try_new(asked, Arc::new(empty)).ok()?;
    let predicate = match (&filter.predicate, predicate) {
        (datafusion_expr::Expr::Alias(_), e) => e.copy(),
        (_, Expr::Alias { expr, .. }) => expr.copy(),
        (_, e) => e.copy(),
    };
    Some(LogicalPlan::Filter { predicate, input: Box::new(input.copy()), having })
}

fn mode_of(plan: &LogicalPlan) -> ResultCheckMode {
    match plan {
        LogicalPlan::ResultCheck { mode, .. } => *mode,
        _ => panic!("a result check is expected"),
    }
}

#[test]
fn result_check_codec_retains_mode() {
    for mode in [ResultCheckMode::Bag, ResultCheckMode::Ordered] {
        let plan = LogicalPlan::ResultCheck { input: Box::new(scan("input")), mode };
        let repr = LogicalPlanRepr::from_plan(&plan).expect("plan should encode");
        match (&repr, mode) {
            (LogicalPlanRepr::ExtensionResultCheck { .. }, ResultCheckMode::Bag)
            | (LogicalPlanRepr::ExtensionOrderedResultCheck { .. }, ResultCheckMode::Ordered) => {}
            _ => panic!("ResultCheck mode used the wrong codec variant"),
        }
        let decoded = repr.to_plan(&registry(), &kept).expect("plan should decode");
        assert_eq!(mode_of(&decoded), mode);
    }
}

/// Both plans are stored alike.
fn round_trips(plan: &LogicalPlan) {
    let repr = LogicalPlanRepr::from_plan(plan).expect("plan should encode");
    let decoded = repr.to_plan(&registry(), &kept).expect("plan should decode");
    assert_eq!(format!("{plan:?}"), format!("{decoded:?}"));
}

fn column(relation: &str, name: &str) -> Expr {
    Expr::Column(Column::new(Some(bare(relation)), name))
}

fn number(n: i64) -> Expr {
    Expr::Literal(ScalarValue::Int64(Some(n)))
}

#[test]
fn stored_plans_are_read_back() {
    let key = |name: &str| SortExpr { expr: column("t", name), asc: false, nulls_first: true };
    round_trips(&LogicalPlan::Limit {
        input: Box::new(LogicalPlan::Sort {
            expr: vec![key("value")],
            input: Box::new(scan("t")),
            fetch: Some(3),
        }),
        skip: None,
        fetch: Some(Box::new(number(10))),
    });
    round_trips(&LogicalPlan::Join {
        left: Box::new(scan("l")),
        right: Box::new(LogicalPlan::SubqueryAlias {
            input: Box::new(scan("r")),
            alias: bare("other"),
        }),
        on: vec![(column("l", "value"), column("other", "value"))],
        filter: Some(Expr::BinaryExpr {
            left: Box::new(number(1)),
            op: Operator::LtEq,
            right: Box::new(number(2)),
        }),
        join_type: JoinType::Inner,
        join_constraint: JoinConstraint::On,
        null_equals_null: false,
    });
    round_trips(&LogicalPlan::Aggregate {
        group_expr: vec![column("t", "value")],
        aggr_expr: vec![Expr::Alias {
            expr: Box::new(Expr::AggregateFunction {
                func: "max".to_string(),
                args: vec![column("t", "value")],
                distinct: true,
                filter: None,
                order_by: Some(vec![key("value")]),
                null_treatment: None,
            }),
            relation: None,
            name: "m".to_string(),
        }],
        input: Box::new(LogicalPlan::Rematerialize { input: Box::new(scan("t")) }),
    });
    round_trips(&LogicalPlan::Projection {
        expr: vec![Expr::Between {
            expr: Box::new(column("t", "value")),
            negated: true,
            low: Box::new(number(1)),
            high: Box::new(number(9)),
        }],
        input: Box::new(LogicalPlan::Filter {
            predicate: Expr::InList {
                expr: Box::new(column("t", "value")),
                list: vec![number(1), number(2)],
                negated: true,
            },
            input: Box::new(scan("t")),
            having: false,
        }),
    });
}

#[test]
fn plans_without_a_stored_form_are_refused() {
    let other = LogicalPlan::Other { kind: OtherPlan::Union, inputs: vec![scan("a"), scan("b")] };
    assert_eq!(LogicalPlanRepr::from_plan(&other).err(), Some(CodecError::InvalidData));
    let like = Expr::Like {
        negated: false,
        expr: Box::new(column("t", "value")),
        pattern: Box::new(Expr::Literal(ScalarValue::Utf8(Some("%a%".to_string())))),
        escape_char: None,
        case_insensitive: false,
    };
    assert_eq!(ExprRepr::from_expr(&like).err(), Some(CodecError::InvalidData));
}

#[test]
fn the_treatment_of_nulls_is_not_stored() {
    let ignoring = Expr::AggregateFunction {
        func: "max".to_string(),
        args: vec![],
        distinct: false,
        filter: None,
        order_by: None,
        null_treatment: Some(NullTreatment::IgnoreNulls),
    };
    let repr = ExprRepr::from_expr(&ignoring).expect("the call has a stored form");
    match repr.to_expr(&registry(), &kept) {
        Ok(Expr::AggregateFunction { null_treatment, .. }) => assert_eq!(null_treatment, None),
        other => panic!("unexpected expression {other:?}"),
    }
}

#[test]
fn unknown_functions_are_refused() {
    let call = |name: &str| ExprRepr::AggregateFunction {
        func: name.to_string(),
        args: vec![],
        distinct: false,
        filter: None,
        order_by: None,
    };
    assert_eq!(
        call("median").to_expr(&registry(), &kept).err(),
        Some(CodecError::UnknownAggregate)
    );
    assert!(call("max").to_expr(&registry(), &kept).is_ok());
    let scalar = ExprRepr::ScalarFunction { func: "nope".to_string(), args: vec![] };
    assert_eq!(scalar.to_expr(&registry(), &kept).err(), Some(CodecError::UnknownScalar));
}

fn stored_scan(table: &str) -> LogicalPlanRepr {
    LogicalPlanRepr::from_plan(&scan(table)).expect("the scan has a stored form")
}

fn stored_filter(predicate: ExprRepr) -> LogicalPlanRepr {
    LogicalPlanRepr::Filter { predicate, input: Box::new(stored_scan("t")), having: true }
}

fn stored_number(n: i64) -> ExprRepr {
    ExprRepr::Literal(ScalarValueRepr::Int64(Some(n)))
}

fn unknown_call() -> ExprRepr {
    ExprRepr::ScalarFunction { func: "nope".to_string(), args: vec![] }
}

#[test]
fn filters_that_are_not_boolean_are_refused() {
    let e = stored_filter(stored_number(7)).to_plan(&registry(), &built);
    assert_eq!(e.err(), Some(CodecError::Refused));
    let tree = TreeRepr { plan: stored_filter(stored_number(7)), join_modes: vec![] };
    let e = deserialize_tree(&tree, &registry(), &built);
    assert_eq!(e.err(), Some(CodecError::Refused));
    let e = read_stored_tree(Some(tree), None, &registry(), &built);
    assert_eq!(e.err(), Some(CodecError::Refused));
    let truth = ExprRepr::Literal(ScalarValueRepr::Boolean(Some(true)));
    assert!(stored_filter(truth).to_plan(&registry(), &built).is_ok());
}

#[test]
fn operators_are_taken_as_the_engine_holds_them() {
    let aliased = ExprRepr::Alias {
        expr: Box::new(ExprRepr::Literal(ScalarValueRepr::Boolean(Some(true)))),
        relation: None,
        name: "always".to_string(),
    };
    match stored_filter(aliased).to_plan(&registry(), &built) {
        Ok(LogicalPlan::Filter { predicate, having, .. }) => {
            assert_eq!(
                format!("{predicate:?}"),
                format!("{:?}", Expr::Literal(ScalarValue::Boolean(Some(true))))
            );
            assert!(having);
        }
        other => panic!("unexpected plan {other:?}"),
    }
}

fn kind(op: &LogicalPlan) -> &'static str {
    match op {
        LogicalPlan::TableScan { .. } => "scan",
        LogicalPlan::Projection { .. } => "projection",
        LogicalPlan::Filter { .. } => "filter",
        LogicalPlan::Aggregate { .. } => "aggregate",
        LogicalPlan::SubqueryAlias { .. } => "alias",
        LogicalPlan::Join { filter: None, .. } => "bare join",
        _ => "other",
    }
}

/// What the engine is asked about while a plan is decoded, where it refuses the
/// operators of one kind, and what comes of it.
fn asked(
    repr: &LogicalPlanRepr,
    refuses: &str,
) -> (Vec<&'static str>, Option<CodecError>) {
    let seen = RefCell::new(vec![]);
    let engine = |op: &LogicalPlan| {
        seen.borrow_mut().push(kind(op));
        if kind(op) == refuses {
            None
        } else {
            kept(op)
        }
    };
    let e = repr.to_plan(&registry(), &engine).err();
    (seen.into_inner(), e)
}

#[test]
fn the_engine_is_asked_from_the_inputs_up() {
    let aliased = LogicalPlanRepr::SubqueryAlias {
        input: Box::new(LogicalPlanRepr::Projection {
            expr: vec![stored_number(1)],
            input: Box::new(LogicalPlanRepr::Aggregate {
                group_expr: vec![stored_number(2)],
                aggr_expr: vec![],
                input: Box::new(stored_filter(stored_number(3))),
            }),
        }),
        alias: "a".to_string(),
    };
    let steps = ["scan", "filter", "aggregate", "projection", "alias"];
    assert_eq!(asked(&aliased, "nothing"), (steps.to_vec(), None));
    for (i, step) in steps.iter().enumerate() {
        assert_eq!(
            asked(&aliased, step),
            (steps[..=i].to_vec(), Some(CodecError::Refused)),
            "{step}"
        );
    }
    let limited = LogicalPlanRepr::Limit {
        input: Box::new(LogicalPlanRepr::Sort {
            expr: vec![],
            input: Box::new(stored_scan("t")),
            fetch: None,
        }),
        skip: None,
        fetch: Some(stored_number(1)),
    };
    assert_eq!(asked(&limited, "other"), (vec!["scan"], None));
}

#[test]
fn the_first_error_in_reading_order_counts() {
    let join = |right: LogicalPlanRepr, filter: Option<ExprRepr>| LogicalPlanRepr::Join {
        left: Box::new(stored_filter(stored_number(1))),
        right: Box::new(right),
        on: vec![],
        filter,
        join_type: JoinTypeRepr::Inner,
        join_constraint: JoinConstraintRepr::On,
        null_equals_null: false,
    };
    // A refused input counts before a faulty other side.
    let faulty = join(stored_filter(unknown_call()), None);
    assert_eq!(asked(&faulty, "filter").1, Some(CodecError::Refused));
    assert_eq!(asked(&faulty, "nothing").1, Some(CodecError::UnknownScalar));
    // A refused join counts before its faulty filter, which the engine never sees.
    let filtered = join(stored_scan("r"), Some(unknown_call()));
    let steps = vec!["scan", "filter", "scan", "bare join"];
    assert_eq!(asked(&filtered, "bare join"), (steps.clone(), Some(CodecError::Refused)));
    assert_eq!(asked(&filtered, "nothing"), (steps, Some(CodecError::UnknownScalar)));
    // A faulty predicate counts before the filter is handed over.
    assert_eq!(
        asked(&stored_filter(unknown_call()), "filter"),
        (vec!["scan"], Some(CodecError::UnknownScalar))
    );
    let sound = join(stored_scan("r"), Some(stored_number(5)));
    match sound.to_plan(&registry(), &kept) {
        Ok(LogicalPlan::Join { filter: Some(f), .. }) => {
            assert_eq!(format!("{f:?}"), format!("{:?}", number(5)));
        }
        other => panic!("unexpected plan {other:?}"),
    }
}

#[test]
fn plans_of_subqueries_are_put_to_the_engine() {
    let within = ExprRepr::InSubquery {
        expr: Box::new(stored_number(1)),
        subquery: SubqueryRepr {
            subquery: Box::new(stored_filter(stored_number(7))),
            outer_ref_columns: vec![],
        },
        negated: false,
    };
    assert_eq!(within.to_expr(&registry(), &built).err(), Some(CodecError::Refused));
    assert!(within.to_expr(&registry(), &kept).is_ok());
}

#[test]
fn scalars_are_read_back() {
    let values = vec![
        ScalarValue::Null,
        ScalarValue::Boolean(None),
        ScalarValue::Float64(Some(0x7ff8_0000_0000_0001)),
        ScalarValue::Decimal128(Some(-5), 10, 2),
        ScalarValue::Utf8(Some("é".to_string())),
        ScalarValue::FixedSizeBinary(2, Some(vec![1, 2])),
        ScalarValue::TimestampMicrosecond(Some(7), Some("UTC".to_string())),
        ScalarValue::IntervalMonthDayNano(Some((1, -2, 3))),
    ];
    for value in &values {
        let repr = ScalarValueRepr::from_value(value).expect("the value has a stored form");
        let back = repr.to_value().expect("the stored form has a value");
        assert_eq!(format!("{value:?}"), format!("{back:?}"));
    }
}

#[test]
fn wide_decimals_are_stored_as_text() {
    let cases = [
        ((0u128, 0i128), "0"),
        ((1, 0), "1"),
        ((u128::MAX, -1), "-1"),
        ((0, 1), "340282366920938463463374607431768211456"),
        (
            (0, i128::MIN),
            "-57896044618658097711785492504343953926634992332820282019728792003956564819968",
        ),
        (
            (u128::MAX, i128::MAX),
            "57896044618658097711785492504343953926634992332820282019728792003956564819967",
        ),
    ];
    for (parts, text) in cases {
        let value = ScalarValue::Decimal256(Some(parts), 76, 0);
        let repr = ScalarValueRepr::from_value(&value).expect("the value has a stored form");
        match &repr {
            ScalarValueRepr::Decimal256(Some(t), 76, 0) => assert_eq!(t, text),
            other => panic!("unexpected stored form {other:?}"),
        }
        match repr.to_value() {
            Ok(ScalarValue::Decimal256(Some(back), 76, 0)) => assert_eq!(back, parts),
            other => panic!("unexpected value {other:?}"),
        }
    }
    let garbled = ScalarValueRepr::Decimal256(Some("12x".to_string()), 76, 0);
    assert_eq!(garbled.to_value().err(), Some(CodecError::InvalidData));
}

#[test]
fn references_are_read_as_identifiers() {
    let parts = |text: &str| match reference_from_text(text) {
        TableReference::Bare { table } => vec![table],
        TableReference::Partial { schema, table } => vec![schema, table],
        TableReference::Full { catalog, schema, table } => vec![catalog, schema, table],
    };
    assert_eq!(parts("Orders"), vec!["orders"]);
    assert_eq!(parts("\"Orders\""), vec!["Orders"]);
    assert_eq!(parts("s.t"), vec!["s", "t"]);
    assert_eq!(parts("c.s.t"), vec!["c", "s", "t"]);
    let repr = ColumnRepr { relation: Some("T".to_string()), name: "A".to_string() };
    assert_eq!(repr.to_column().flat_name(), "t.A");
    assert_eq!(
        ColumnRepr::from_column(&Column::new(Some(bare("t")), "a")).relation,
        Some("t".to_string())
    );
}

#[test]
fn names_without_quotes_are_read_as_they_stand() {
    let names = [
        "b", "r", "n", "e", "u", "x", "b1", "e1", "x0f", "l", "_", "_1", "n2_", "select", "table",
        "group", "true", "null",
    ];
    for name in names {
        let whole = match reference_from_text(name) {
            TableReference::Bare { table } => table,
            _ => panic!("one part"),
        };
        assert_eq!(whole, name);
        for other in names {
            let text = format!("{name}.{other}");
            assert!(matches!(
                reference_from_text(&text),
                TableReference::Partial { schema, table } if schema == name && table == other
            ));
            let text = format!("{name}.{other}.{name}");
            assert!(matches!(
                reference_from_text(&text),
                TableReference::Full { catalog, schema, table }
                    if catalog == name && schema == other && table == name
            ));
        }
    }
}

#[test]
fn schemas_are_read_back() {
    let schema = Schema {
        fields: vec![
            Field::new("a", DataType::Decimal128(12, 2), true),
            Field::new(
                "b",
                DataType::Timestamp(TimeUnit::Nanosecond, Some("UTC".to_string())),
                false,
            )
            .with_metadata(Metadata::new().with("k".to_string(), "v".to_string())),
        ],
        metadata: Metadata::new().with("x".to_string(), "y".to_string()),
    };
    let repr = SchemaRepr::from_schema(&schema).expect("the schema has a stored form");
    assert_eq!(repr.fields.len(), 2);
    assert_eq!(repr.metadata, vec![("x".to_string(), "y".to_string())]);
    let back = repr.to_schema().expect("the stored form has a schema");
    for (a, b) in schema.fields.iter().zip(&back.fields) {
        assert!(a.same(b));
    }
    assert!(schema.metadata.same(&back.metadata));
    let garbled = FieldRepr {
        name: "a".to_string(),
        data_type: DataTypeRepr::Timestamp { unit: "fortnight".to_string(), timezone: None },
        nullable: false,
        metadata: vec![],
    };
    assert_eq!(garbled.to_field().err(), Some(CodecError::InvalidData));
}

#[test]
fn small_enumerations_are_read_back() {
    for op in [Operator::Eq, Operator::Modulo, Operator::ArrowAt] {
        assert_eq!(OperatorRepr::from_operator(op).to_operator(), op);
    }
    for t in [JoinType::Inner, JoinType::LeftMark] {
        assert_eq!(JoinTypeRepr::from_join_type(t).to_join_type(), t);
    }
    for m in [
        JoinMode::ONE_TO_MANY,
        JoinMode::MANY_TO_ONE,
        JoinMode::ONE_TO_ONE,
        JoinMode::MANY_TO_MANY,
    ] {
        assert_eq!(JoinModeRepr::from_join_mode(m).to_join_mode(), m);
    }
}

// ---------------------------------------------------------------------------
// Trees
// ---------------------------------------------------------------------------

fn node(id: u64, name: &str, kind: NodeKind, children: Vec<Node>) -> Node {
    Node { id, name: name.to_string(), kind, children }
}

/// Two nested joins, each with its check.
fn join_tree() -> Node {
    let gadget = |id: u64, mode: JoinMode| node(id, "Join", NodeKind::JoinGadget(mode), vec![]);
    let table = |id: u64| node(id, "TableScan", NodeKind::Plan(PlanKind::TableScan), vec![]);
    let inner = node(
        2,
        "Join",
        NodeKind::Plan(PlanKind::Join),
        vec![table(3), table(4), gadget(5, JoinMode::ONE_TO_MANY)],
    );
    node(
        1,
        "Join",
        NodeKind::Plan(PlanKind::Join),
        vec![inner, table(6), gadget(7, JoinMode::MANY_TO_MANY)],
    )
}

#[test]
fn modes_are_collected_and_given_in_one_order() {
    let tree = join_tree();
    let mut modes = vec![];
    collect_join_modes(&tree, &mut modes);
    assert_eq!(modes, vec![JoinMode::MANY_TO_MANY, JoinMode::ONE_TO_MANY]);
    let mut requests = vec![];
    assert_eq!(apply_join_modes(&tree, &modes, 0, &mut requests), 2);
    assert_eq!(requests, vec![(7, JoinMode::MANY_TO_MANY), (5, JoinMode::ONE_TO_MANY)]);
    // A join beyond the list is asked nothing.
    let mut requests = vec![];
    assert_eq!(apply_join_modes(&tree, &vec![JoinMode::ONE_TO_ONE], 0, &mut requests), 1);
    assert_eq!(requests, vec![(7, JoinMode::ONE_TO_ONE)]);
}

#[test]
fn stored_trees_are_read_back() {
    let repr = serialize_tree(&join_tree(), &scan("t")).expect("the tree has a stored form");
    assert_eq!(repr.join_modes.len(), 2);
    let tree = deserialize_tree(&repr, &registry(), &kept).expect("the stored form has a tree");
    assert_eq!(format!("{:?}", tree.plan), format!("{:?}", scan("t")));
    assert_eq!(tree.modes, vec![JoinMode::MANY_TO_MANY, JoinMode::ONE_TO_MANY]);
}

#[test]
fn stored_trees_are_read_from_either_form() {
    let stored = |table: &str| TreeRepr {
        plan: LogicalPlanRepr::TableScan {
            table_name: table.to_string(),
            schema: SchemaRepr { fields: vec![], metadata: vec![] },
            projection: None,
            filters: vec![],
            fetch: None,
        },
        join_modes: vec![JoinModeRepr::OneToMany],
    };
    let table = |binary: Option<TreeRepr>, text: Option<TreeRepr>| {
        read_stored_tree(binary, text, &registry(), &kept).map(|t| {
            assert_eq!(t.modes, vec![JoinMode::ONE_TO_MANY]);
            match t.plan {
                LogicalPlan::TableScan { table_name, .. } => table_name.to_text(),
                _ => panic!("a scan was stored"),
            }
        })
    };
    assert_eq!(table(Some(stored("a")), None), Ok("a".to_string()));
    assert_eq!(table(None, Some(stored("a"))), Ok("a".to_string()));
    assert_eq!(table(Some(stored("a")), Some(stored("b"))), Ok("a".to_string()));
    assert_eq!(table(None, None), Err(CodecError::InvalidData));
}

#[test]
fn paths_lead_to_nodes() {
    let tree = join_tree();
    assert_eq!(structural_path_to_node(&tree, 1), Some(vec![]));
    assert_eq!(structural_path_to_node(&tree, 4), Some(vec![0, 1]));
    assert_eq!(structural_path_to_node(&tree, 7), Some(vec![2]));
    assert_eq!(structural_path_to_node(&tree, 9), None);
    assert_eq!(remat_contig_key(&tree, 4), Some("remat_contig_s_0.1".to_string()));
    assert_eq!(remat_contig_key(&tree, 9), None);
}

#[test]
fn parents_are_found_in_an_arena() {
    let arena = vec![
        ArenaEntry { id: 1, children: vec![2, 3] },
        ArenaEntry { id: 2, children: vec![4] },
    ];
    assert_eq!(find_parent_id(&arena, 4), Some(2));
    assert_eq!(find_parent_id(&arena, 1), None);
    assert_eq!(parent_child_id(&arena, 3, 0), Some(2));
    assert_eq!(parent_child_id(&arena, 3, 5), None);
}

#[test]
fn kinds_of_nodes() {
    assert_eq!(from_lp(&scan("t")), Some(PlanKind::TableScan));
    assert_eq!(from_lp(&LogicalPlan::Other { kind: OtherPlan::Union, inputs: vec![] }), None);
    assert_eq!(from_expr(&number(1)), Some(ExprKind::Literal));
    assert_eq!(
        display_with_inputs("Join", &vec!["a".to_string(), "b".to_string()]),
        "Join\nInputs: a, b"
    );
    let lookup = node(3, "Lookup", NodeKind::Gadget, vec![]);
    let support = node(2, "Support", NodeKind::Gadget, vec![lookup]);
    let gadget = node(1, "Aggregate", NodeKind::Gadget, vec![support]);
    assert_eq!(lookup_super_multiplicities_node(&gadget), Some(3));
    assert_eq!(lookup_super_multiplicities_node(&join_tree()), None);
}

// ---------------------------------------------------------------------------
// Rematerialization
// ---------------------------------------------------------------------------

fn poly(n: usize) -> Poly {
    Poly { id: PolyId::Numbered(n), tracker: 0, log_size: 2 }
}

fn table() -> Table {
    Table::of(
        vec![
            TrackedColumn { field: Field::new("a", DataType::Int64, false), poly: poly(1) },
            TrackedColumn { field: row_id_field(), poly: poly(2) },
            TrackedColumn { field: activator_field(), poly: poly(3) },
        ],
        2,
    )
}

#[test]
fn the_weight_of_a_compacted_table_is_read() {
    assert_eq!(active_rows(&vec![true, false, true]), 2);
    assert_eq!(active_rows(&vec![]), 0);
    assert_eq!(read_weight(&vec![3, 1, 0]), Ok(259));
    assert_eq!(read_weight(&vec![0; 40]), Ok(0));
    let mut wide = vec![0; 40];
    wide[20] = 1;
    assert_eq!(read_weight(&wide), Err(RematError::WeightTooLarge));
    assert_eq!(
        RematError::WeightTooLarge.message(),
        "rematerialize contig s does not fit into usize"
    );
}

#[test]
fn a_compacted_table_is_active_in_its_first_rows() {
    assert_eq!(compaction_source(Some(&table())), Some(poly(3)));
    assert_eq!(compaction_source(None), None);
    let compacted = add_virtual_witness(&table(), poly(9));
    assert_eq!(compacted.activator(), Some(poly(9)));
    assert_eq!(compacted.poly_by_name("a"), Some(poly(1)));
    let (input, output) = initialize_gadgets(Some(table()), Some(compacted)).expect("both tables");
    assert_eq!(input.poly_by_name(ROW_ID_COL_NAME), None);
    assert_eq!(output.activator(), Some(poly(9)));
    assert!(initialize_gadgets(None, Some(table())).is_none());
}

#[test]
fn rows_are_filtered_sorted_and_numbered_anew() {
    let schema = DfSchema {
        fields: table()
            .cols
            .into_iter()
            .map(|c| QualifiedField { qualifier: None, field: c.field })
            .collect(),
    };
    let steps = build_output_steps(&schema);
    assert!(steps.filter_active);
    assert_eq!(steps.sort.len(), 1);
    let renumber = steps.renumber.expect("the rows have numbers");
    assert_eq!(renumber.by.name, ROW_ID_COL_NAME);
    assert_eq!(renumber.keep.len(), 2);
    let hint = output_hint(&Constraints::new(), schema);
    assert_eq!(hint.should_materialize(&activator_field()), Some(false));
    assert_eq!(hint.should_materialize(&Field::new("a", DataType::Int64, false)), Some(true));
    let bare_steps = build_output_steps(&DfSchema { fields: vec![] });
    assert!(!bare_steps.filter_active && bare_steps.renumber.is_none());
}

#[test]
fn the_operator_takes_one_input_and_no_expressions() {
    let ok = RematerializeLogicalNode::with_exprs_and_inputs(&vec![], vec![scan("t")]);
    assert!(matches!(ok.expect("one input").input(), LogicalPlan::TableScan { .. }));
    let e = RematerializeLogicalNode::with_exprs_and_inputs(&vec![number(1)], vec![scan("t")]);
    assert_eq!(e.err(), Some(RematError::Expressions));
    let e = RematerializeLogicalNode::with_exprs_and_inputs(&vec![], vec![]);
    assert_eq!(e.err(), Some(RematError::Inputs));
    assert_eq!(RematError::Inputs.message(), "Rematerialize expects a single input");
    assert!(matches!(wrap_logical_plan(scan("t")), LogicalPlan::Rematerialize { .. }));
    let node = RematerializeLogicalNode::new(scan("t"));
    assert_eq!(node.necessary_children_exprs(&vec![0, 2]), vec![vec![0, 2]]);
    assert_eq!(display("TableScan"), "Rematerialize\nInput: TableScan");
}

#[test]
fn arguments_are_told_apart_by_label() {
    assert_eq!(input_label(0), "__input_0__");
    assert_eq!(input_label(12), "__input_12__");
    assert_ne!(ACTIVATOR_COL_NAME, ROW_ID_COL_NAME);
}
