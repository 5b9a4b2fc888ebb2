//! Planned outputs: their normalization, their system columns, the key
//! constraints that their columns are annotated with, and the caches of
//! planned tables.
use datafusion::arrow::array::{Array, Int64Array, RecordBatch};
use datafusion::arrow::datatypes as arrow;
use datafusion::prelude::{col, DataFrame, SessionContext};
use std::sync::Arc;
use tt_core::caches::{
    begin_schema_only_ctx_scope, begin_verifier_output_cache_scope, end_schema_only_ctx_scope,
    end_verifier_output_cache_scope, schema_only_ctx, with_output_cache, OutputCaches,
    SchemaOnlyCtx, SchemaOnlyScope, ScopedCache,
};
use tt_core::constraints::{
    apply_constraint_metadata, column_constraint_metadata,
    configure_constraint_metadata_from_parquet_paths, merge_constraints,
    table_name_from_qualifier, ConstraintManifest, Constraints, ForeignKeySpec,
    TableConstraintSpec, FK_REF_COLUMNS_METADATA_KEY, FK_REF_TABLE_METADATA_KEY, PK_METADATA_KEY,
};
use tt_core::df_schema::{DfSchema, LookupError, QualifiedField};
use tt_core::hints::{
    already_normalized, append_activator_exprs_if_present, append_row_id_expr_if_present,
    build_identity_projection, data_hint, names_without_row_id, project_with_system_columns,
    row_id_sort_exprs, shape_with_system_columns, strip_row_id_from_hint, HintDF,
};
use tt_core::join_plan::{
    begin_join_planning_cache_scope, end_join_planning_cache_scope,
    get_or_build_many_to_many_hints, initialize_gadget_plans, initialize_prover_gadget_plans,
    verifier_frames, JoinFrames, JoinPlanningCache,
};
use tt_core::join_scope::{Join, SRC_LEFT_COL_NAME, SRC_RIGHT_COL_NAME};
use tt_core::metadata::Metadata;
use tt_core::plan::{Column, Expr, JoinType, TableReference};
use tt_core::schema::{DataType, Field};
use tt_core::table::{
    activator_field, row_id_field, ACTIVATOR_COL_NAME, QUALIFIER_METADATA_KEY, ROW_ID_COL_NAME,
};

fn bare(name: &str) -> Option<TableReference> {
    Some(TableReference::Bare { table: name.to_string() })
}

fn entry(qualifier: Option<TableReference>, field: Field) -> QualifiedField {
    QualifiedField { qualifier, field }
}

fn whole(name: &str, nullable: bool) -> Field {
    Field::new(name, DataType::Int64, nullable)
}

fn plain(names: &[&str]) -> DfSchema {
    DfSchema { fields: names.iter().map(|n| entry(None, whole(n, false))).collect() }
}

/// The schema of a data frame of integers.
fn schema_of(df: &DataFrame) -> DfSchema {
    DfSchema {
        fields: df
            .schema()
            .iter()
            .map(|(qualifier, field)| {
                let mut metadata = Metadata::new();
                for (k, v) in field.metadata() {
                    metadata = metadata.with(k.clone(), v.clone());
                }
                let qualifier = qualifier.map(|q| TableReference::Bare { table: q.to_string() });
                entry(qualifier, whole(field.name(), field.is_nullable()).with_metadata(metadata))
            })
            .collect(),
    }
}

/// The data frame under the projection that normalization builds.
fn normalized(df: DataFrame) -> DataFrame {
    let projection = build_identity_projection(&schema_of(&df));
    let exprs = projection
        .iter()
        .map(|e| match e {
            Expr::Alias { expr, name, .. } => match &**expr {
                Expr::Column(c) => col(c.flat_name()).alias(name.clone()),
                _ => panic!("a column is expected"),
            },
            _ => panic!("an alias is expected"),
        })
        .collect::<Vec<_>>();
    df.select(exprs).expect("the projection is valid")
}

#[test]
fn hint_normalization_preserves_nullability_values_and_materialization() {
    let schema = Arc::new(arrow::Schema::new(vec![
        arrow::Field::new("required", arrow::DataType::Int64, false),
        arrow::Field::new("optional", arrow::DataType::Int64, true),
        arrow::Field::new("optional_without_nulls", arrow::DataType::Int64, true),
    ]));
    let batch = RecordBatch::try_new(
        schema,
        vec![
            Arc::new(Int64Array::from(vec![1, 2])),
            Arc::new(Int64Array::from(vec![Some(3), None])),
            Arc::new(Int64Array::from(vec![4, 5])),
        ],
    )
    .unwrap();
    let df = SessionContext::new()
        .read_batch(batch)
        .unwrap()
        .select(vec![
            col("required").alias("required"),
            col("optional").alias("optional"),
            col("optional_without_nulls").alias("optional_without_nulls"),
        ])
        .unwrap();
    let flags: Vec<(Field, bool)> = schema_of(&df)
        .fields
        .into_iter()
        .enumerate()
        .map(|(idx, q)| (q.field, idx != 1))
        .collect();
    let df = normalized(df);
    let hint = HintDF::new(&Constraints::new(), schema_of(&df), &flags);
    assert_eq!(
        hint.schema
            .fields
            .iter()
            .map(|q| (q.field.name.as_str(), q.field.nullable))
            .collect::<Vec<_>>(),
        vec![("required", false), ("optional", true), ("optional_without_nulls", true)]
    );
    assert_eq!(
        hint.should_materialize.iter().map(|(_, m)| *m).collect::<Vec<_>>(),
        vec![true, false, true]
    );

    // Normalizing again builds the same projection and the same flags.
    assert!(already_normalized(&build_identity_projection(&hint.schema), &hint.schema));
    let again = HintDF::new(&Constraints::new(), schema_of(&df), &hint.should_materialize);
    assert_eq!(again.should_materialize.len(), hint.should_materialize.len());
    for (a, b) in again.should_materialize.iter().zip(&hint.should_materialize) {
        assert!(a.0.same(&b.0));
        assert_eq!(a.1, b.1);
    }

    let runtime = tokio::runtime::Builder::new_multi_thread().enable_all().build().unwrap();
    let batches = runtime.block_on(df.collect()).unwrap();
    assert_eq!(batches.iter().map(RecordBatch::num_rows).sum::<usize>(), 2);
    let batches =
        datafusion::arrow::compute::concat_batches(&batches[0].schema(), &batches).unwrap();
    let values = |i: usize| batches.column(i).as_any().downcast_ref::<Int64Array>().unwrap();
    assert_eq!(values(0).values().as_ref(), &[1, 2]);
    assert_eq!(values(0).null_count(), 0);
    assert_eq!(values(1).value(0), 3);
    assert!(values(1).is_null(1));
    assert_eq!(values(2).values().as_ref(), &[4, 5]);
    assert_eq!(values(2).null_count(), 0);
}

#[test]
fn hint_normalization_preserves_qualifiers_field_metadata_and_order() {
    let second = || {
        whole("second", false).with_metadata(
            Metadata::new().with("test.metadata".to_string(), "preserved".to_string()),
        )
    };
    let schema = DfSchema {
        fields: vec![
            entry(bare("hint_source"), second()),
            entry(bare("hint_source"), whole("first", true)),
        ],
    };
    let flags = vec![(second(), false), (whole("first", true), true)];
    let hint = HintDF::new(&Constraints::new(), schema, &flags);
    let fields = &hint.should_materialize;
    assert_eq!(fields[0].0.name, "second");
    assert_eq!(fields[1].0.name, "first");
    assert!(!fields[0].0.nullable);
    assert!(fields[1].0.nullable);
    assert!(!fields[0].1);
    assert!(fields[1].1);
    assert_eq!(fields[0].0.metadata.get("test.metadata").unwrap(), "preserved");
    for (q, (field, _)) in hint.schema.fields.iter().zip(fields) {
        assert_eq!(q.qualifier.as_ref().unwrap().to_text(), "hint_source");
        assert_eq!(field.metadata.get(QUALIFIER_METADATA_KEY).unwrap(), "hint_source");
    }
}

#[test]
fn a_second_normalization_can_lose_a_qualified_flag() {
    let schema = || DfSchema { fields: vec![entry(bare("t"), whole("a", false))] };
    let hint = HintDF::new(&Constraints::new(), schema(), &vec![(whole("a", false), false)]);
    assert!(!hint.should_materialize[0].1);
    // The flags bear the annotated field, which the schema does not list.
    let again = HintDF::new(&Constraints::new(), schema(), &hint.should_materialize);
    assert!(again.should_materialize[0].1);
}

#[test]
fn outputs_are_all_materialized_or_all_virtual() {
    let store = Constraints::new();
    let hint = HintDF::new_materialized(&store, plain(&["a", "b"]));
    assert_eq!(hint.to_text(), "HintDF with 2 columns\nMaterialized: (a,b)\nVirtual: ()");
    assert_eq!(hint.should_materialize(&whole("a", false)), Some(true));
    assert_eq!(hint.should_materialize(&whole("c", false)), None);
    assert_eq!(
        hint.as_virtual_view().to_text(),
        "HintDF with 2 columns\nMaterialized: ()\nVirtual: (a,b)"
    );
    let hint = HintDF::new_virtual(&store, plain(&["a"]));
    assert_eq!(hint.to_text(), "HintDF with 1 columns\nMaterialized: ()\nVirtual: (a)");
    let data = data_hint(&store, plain(&["a", ROW_ID_COL_NAME, ACTIVATOR_COL_NAME]));
    assert_eq!(data.should_materialize(&whole("a", false)), Some(true));
}

fn names(exprs: &[Expr]) -> Vec<String> {
    exprs
        .iter()
        .map(|e| match e {
            Expr::Column(c) => c.flat_name(),
            _ => "?".to_string(),
        })
        .collect()
}

#[test]
fn projections_carry_the_system_columns_once() {
    let schema = DfSchema {
        fields: vec![
            entry(None, whole("a", false)),
            entry(None, row_id_field()),
            entry(None, activator_field()),
        ],
    };
    let mut exprs =
        project_with_system_columns(&schema, Expr::Column(Column::new_unqualified("a")));
    assert_eq!(names(&exprs), vec!["a", ROW_ID_COL_NAME, ACTIVATOR_COL_NAME]);
    append_activator_exprs_if_present(&schema, &mut exprs);
    append_row_id_expr_if_present(&schema, &mut exprs);
    assert_eq!(exprs.len(), 3);
    let shape = shape_with_system_columns(&schema, whole("x", true));
    let shape: Vec<&str> = shape.iter().map(|f| f.name.as_str()).collect();
    assert_eq!(shape, vec!["x", ROW_ID_COL_NAME, ACTIVATOR_COL_NAME]);
    let keys = row_id_sort_exprs(&schema);
    assert_eq!(keys.len(), 1);
    assert!(keys[0].asc && keys[0].nulls_first);
    assert_eq!(row_id_sort_exprs(&plain(&["a"])).len(), 0);
}

#[test]
fn row_numbers_are_dropped_and_flags_kept_by_name() {
    let store = Constraints::new();
    let schema =
        DfSchema { fields: vec![entry(None, whole("a", false)), entry(None, row_id_field())] };
    let hint =
        HintDF::new(&store, schema, &vec![(whole("a", false), false), (row_id_field(), true)]);
    assert_eq!(names_without_row_id(&hint), Some(vec!["a".to_string()]));
    let stripped = strip_row_id_from_hint(&store, hint, plain(&["a"]));
    assert_eq!(stripped.to_text(), "HintDF with 1 columns\nMaterialized: ()\nVirtual: (a)");
    assert_eq!(names_without_row_id(&stripped), None);
}

#[test]
fn columns_are_looked_up_by_qualifier() {
    let schema = DfSchema {
        fields: vec![entry(bare("l"), whole("id", false)), entry(bare("r"), whole("id", false))],
    };
    assert_eq!(schema.look_up(&Column::new(bare("r"), "id")), Ok(1));
    assert_eq!(
        schema.look_up(&Column::new(bare("x"), "id")),
        Err(LookupError::NotFound),
        "no other relation is taken"
    );
    assert_eq!(
        schema.look_up(&Column::new_unqualified("id")),
        Err(LookupError::Ambiguous)
    );
    assert_eq!(plain(&["a"]).look_up(&Column::new_unqualified("a")), Ok(0));
}

fn manifest() -> ConstraintManifest {
    ConstraintManifest {
        tables: vec![
            TableConstraintSpec {
                table: "Orders".to_string(),
                primary_key: vec!["O_OrderKey".to_string()],
                foreign_keys: vec![ForeignKeySpec {
                    columns: vec!["o_custkey".to_string()],
                    ref_table: "Customer".to_string(),
                    ref_columns: vec!["C_CustKey".to_string()],
                }],
            },
            TableConstraintSpec {
                table: "nation".to_string(),
                primary_key: vec![],
                foreign_keys: vec![],
            },
        ],
    }
}

#[test]
fn key_constraints_are_found_in_lower_case() {
    let mut store = Constraints::new();
    configure_constraint_metadata_from_parquet_paths(&mut store, &vec![None, Some(manifest())]);
    let key = column_constraint_metadata(&store, "public.\"ORDERS\"", "O_ORDERKEY")
        .expect("the table is known");
    assert!(key.is_pk);
    assert_eq!(key.fk_ref_table, None);
    assert!(key.fk_ref_columns.is_empty());
    let foreign =
        column_constraint_metadata(&store, "orders", "o_custkey").expect("the table is known");
    assert!(!foreign.is_pk);
    assert_eq!(foreign.fk_ref_table, Some("Customer".to_string()));
    assert_eq!(foreign.fk_ref_columns, vec!["c_custkey".to_string()]);
    let plain = column_constraint_metadata(&store, "nation", "n_name").expect("known");
    assert!(!plain.is_pk && plain.fk_ref_table.is_none());
    assert!(column_constraint_metadata(&store, "lineitem", "l_orderkey").is_none());
    // A new configuration replaces the old one.
    configure_constraint_metadata_from_parquet_paths(&mut store, &vec![None]);
    assert!(column_constraint_metadata(&store, "orders", "o_custkey").is_none());
}

#[test]
fn tables_are_known_by_the_last_segment_of_their_qualifier() {
    assert_eq!(table_name_from_qualifier("a.b.\"Orders\""), "orders");
    assert_eq!(table_name_from_qualifier("`Orders`"), "orders");
    assert_eq!(table_name_from_qualifier("ÄRA"), "ära");
    // No dot is left, and no backquote at the ends, whatever the letters.
    assert_eq!(table_name_from_qualifier("Öst.\"`Ära`\""), "ära");
}

#[test]
fn key_constraints_annotate_the_fields_of_an_output() {
    let mut store = Constraints::new();
    merge_constraints(&mut store, &manifest());
    let metadata = apply_constraint_metadata(Metadata::new(), &store, "orders", "o_orderkey");
    assert_eq!(metadata.get(PK_METADATA_KEY), Some(&"true".to_string()));
    assert_eq!(metadata.get(FK_REF_TABLE_METADATA_KEY), None);
    let metadata = apply_constraint_metadata(Metadata::new(), &store, "orders", "o_custkey");
    assert_eq!(metadata.get(FK_REF_TABLE_METADATA_KEY), Some(&"Customer".to_string()));
    assert_eq!(
        metadata.get(FK_REF_COLUMNS_METADATA_KEY),
        Some(&"[\"c_custkey\"]".to_string())
    );
    let hint = HintDF::new_materialized(
        &store,
        DfSchema { fields: vec![entry(bare("orders"), whole("o_orderkey", false))] },
    );
    let field = &hint.should_materialize[0].0;
    assert_eq!(field.metadata.get(PK_METADATA_KEY), Some(&"true".to_string()));
    assert_eq!(field.metadata.get(QUALIFIER_METADATA_KEY), Some(&"orders".to_string()));
}

fn join(nullable: bool) -> Join {
    Join {
        left: DfSchema { fields: vec![entry(bare("left"), whole("key", nullable))] },
        right: DfSchema { fields: vec![entry(bare("right"), whole("key", nullable))] },
        on: vec![(
            Expr::Column(Column::new(bare("left"), "key")),
            Expr::Column(Column::new(bare("right"), "key")),
        )],
        filter: None,
        join_type: JoinType::Inner,
    }
}

fn frames() -> JoinFrames {
    verifier_frames(plain(&["key"]), plain(&["key"]))
}

fn virtual_hint(name: &str) -> HintDF {
    HintDF::new_virtual(&Constraints::new(), plain(&[name]))
}

#[test]
fn a_second_normalization_finds_materialized_columns_again() {
    let store = Constraints::new();
    let schema = || DfSchema { fields: vec![entry(bare("t"), whole("a", false))] };
    let once = HintDF::new(&store, schema(), &vec![(whole("a", false), true)]);
    let twice = HintDF::new(&store, schema(), &once.should_materialize);
    assert!(once.should_materialize[0].0.same(&twice.should_materialize[0].0));
    assert!(once.should_materialize[0].1 && twice.should_materialize[0].1);
    // A virtual column is looked up without its qualifier the second time.
    let once = HintDF::new(&store, schema(), &vec![(whole("a", false), false)]);
    let twice = HintDF::new(&store, schema(), &once.should_materialize);
    assert!(!once.should_materialize[0].1);
    assert!(twice.should_materialize[0].1);
}

#[test]
fn constraints_ignore_qualifier_prefix_and_letter_case() {
    let mut store = Constraints::new();
    merge_constraints(
        &mut store,
        &ConstraintManifest {
            tables: vec![TableConstraintSpec {
                table: "Orders".to_string(),
                primary_key: vec!["O_OrderKey".to_string()],
                foreign_keys: vec![],
            }],
        },
    );
    for table in ["orders", "ORDERS", "x.y.Orders", ".orders", "x.\"Orders\"", "`orders`"] {
        assert_eq!(table_name_from_qualifier(table), "orders");
        for column in ["o_orderkey", "O_ORDERKEY", "O_orderkey"] {
            let found = column_constraint_metadata(&store, table, column).expect("known");
            assert!(found.is_pk && found.fk_ref_table.is_none());
        }
    }
    assert_eq!(table_name_from_qualifier("[A.Z]@`"), "z]@");
    assert_eq!(table_name_from_qualifier("\u{c4}b"), "\u{e4}b");
}

#[test]
fn referenced_columns_are_listed_in_quotes() {
    let listed = |columns: &[&str]| {
        let manifest = ConstraintManifest {
            tables: vec![TableConstraintSpec {
                table: "t".to_string(),
                primary_key: vec![],
                foreign_keys: vec![ForeignKeySpec {
                    columns: vec!["k".to_string()],
                    ref_table: "u".to_string(),
                    ref_columns: columns.iter().map(|c| c.to_string()).collect(),
                }],
            }],
        };
        let mut store = Constraints::new();
        merge_constraints(&mut store, &manifest);
        let metadata = apply_constraint_metadata(Metadata::new(), &store, "t", "k");
        metadata.get(FK_REF_COLUMNS_METADATA_KEY).expect("the columns are listed").clone()
    };
    assert_eq!(listed(&[]), "[]");
    assert_eq!(listed(&["a", "b c", "\u{e9}\u{7f}"]), "[\"a\",\"b c\",\"\u{e9}\u{7f}\"]");
    assert_eq!(listed(&["a\"b\\"]), "[\"a\\\"b\\\\\"]");
}

#[test]
fn joined_tables_are_planned_as_materialized() {
    let store = Constraints::new();
    let plans = initialize_gadget_plans(
        &join(false),
        &store,
        Some(virtual_hint("a")),
        Some(virtual_hint("b")),
        Some(virtual_hint("c")),
        frames(),
    )
    .expect("a supported join")
    .expect("all tables are planned");
    for (hint, name) in [(&plans.left, "a"), (&plans.right, "b"), (&plans.output, "c")] {
        assert_eq!(hint.should_materialize(&whole(name, false)), Some(true));
    }
    assert_eq!(plans.output_left.should_materialize(&whole("key", false)), Some(false));
    let source = plans
        .src_left
        .should_materialize
        .iter()
        .find(|(f, _)| f.name == SRC_LEFT_COL_NAME)
        .expect("the source rows are planned");
    assert!(source.1);
    let unplanned = initialize_gadget_plans(
        &join(false),
        &store,
        None,
        Some(virtual_hint("b")),
        Some(virtual_hint("c")),
        frames(),
    );
    assert!(matches!(unplanned, Ok(None)));
    assert!(initialize_gadget_plans(&join(true), &store, None, None, None, frames()).is_err());
}

#[test]
fn planned_tables_are_kept_within_a_scope() {
    let store = Constraints::new();
    let mut cache = JoinPlanningCache { plans: ScopedCache::new() };
    let build = |cache: &mut JoinPlanningCache, id: u64, left: &str| {
        get_or_build_many_to_many_hints(
            cache,
            id,
            &store,
            virtual_hint(left),
            virtual_hint("b"),
            virtual_hint("c"),
            frames(),
        )
        .left
        .schema
        .fields[0]
            .field
            .name
            .clone()
    };
    // Without a scope nothing is kept.
    assert_eq!(build(&mut cache, 1, "a"), "a");
    assert_eq!(build(&mut cache, 1, "x"), "x");
    begin_join_planning_cache_scope(&mut cache);
    assert_eq!(build(&mut cache, 1, "a"), "a");
    assert_eq!(build(&mut cache, 1, "x"), "a");
    assert_eq!(build(&mut cache, 2, "x"), "x");
    end_join_planning_cache_scope(&mut cache);
    assert_eq!(build(&mut cache, 1, "x"), "x");
}

#[test]
fn the_prover_keeps_the_tables_of_a_planned_join() {
    let store = Constraints::new();
    let mut cache = JoinPlanningCache { plans: ScopedCache::new() };
    begin_join_planning_cache_scope(&mut cache);
    let plan = |cache: &mut JoinPlanningCache, left: Option<&str>, refused: bool| {
        initialize_prover_gadget_plans(
            &join(refused),
            cache,
            4,
            &store,
            left.map(virtual_hint),
            Some(virtual_hint("b")),
            Some(virtual_hint("c")),
            frames(),
        )
    };
    assert!(plan(&mut cache, Some("a"), true).is_err());
    assert!(matches!(plan(&mut cache, None, false), Ok(None)));
    assert!(cache.plans.get(4).is_none());
    for name in ["a", "x"] {
        let plans = plan(&mut cache, Some(name), false)
            .expect("a supported join")
            .expect("all tables are planned");
        assert_eq!(plans.left.schema.fields[0].field.name, "a");
    }
    assert!(cache.plans.get(4).is_some());
}

#[test]
fn the_verifier_knows_the_shape_of_derived_tables() {
    let shape = verifier_frames(plain(&["key"]), plain(&["other"]));
    assert_eq!(shape.output_left.fields[0].field.name, "key");
    assert_eq!(shape.output_right.fields[0].field.name, "other");
    let names = |s: &DfSchema| -> Vec<String> {
        s.fields.iter().map(|f| f.field.name.clone()).collect()
    };
    assert!(names(&shape.src_left).iter().any(|n| n == SRC_LEFT_COL_NAME));
    assert!(names(&shape.src_right).iter().any(|n| n == SRC_RIGHT_COL_NAME));
    assert!(names(&shape.nodup_input).iter().any(|n| n == SRC_LEFT_COL_NAME));
}

#[test]
fn a_scoped_cache_keeps_the_latest_value_of_a_key() {
    let mut cache: ScopedCache<usize> = ScopedCache::new();
    cache.put(1, 10);
    assert_eq!(cache.get(1), None);
    cache.begin_scope();
    cache.put(1, 10);
    cache.put(2, 20);
    cache.put(1, 11);
    assert_eq!(cache.get(1), Some(&11));
    assert_eq!(cache.get(2), Some(&20));
    assert_eq!(cache.get(3), None);
    cache.begin_scope();
    assert_eq!(cache.get(1), None);
    cache.end_scope();
    assert_eq!(cache.get(1), None);
}

#[test]
fn outputs_are_computed_once_within_a_scope() {
    let mut cache: ScopedCache<HintDF> = ScopedCache::new();
    let mut computed = 0;
    for _ in 0..2 {
        with_output_cache(&mut cache, 3, || {
            computed += 1;
            virtual_hint("a")
        });
    }
    assert_eq!(computed, 2);
    cache.begin_scope();
    for name in ["a", "x"] {
        let output = with_output_cache(&mut cache, 3, || {
            computed += 1;
            virtual_hint(name)
        });
        assert_eq!(output.schema.fields[0].field.name, "a");
    }
    assert_eq!(computed, 3);
}

#[test]
fn output_caches_and_contexts_open_and_close() {
    let mut caches = OutputCaches { prover: ScopedCache::new(), verifier: ScopedCache::new() };
    begin_verifier_output_cache_scope(&mut caches);
    caches.verifier.put(7, virtual_hint("a"));
    assert!(caches.verifier.get(7).is_some());
    end_verifier_output_cache_scope(&mut caches);
    assert!(caches.verifier.get(7).is_none());

    let mut scope = SchemaOnlyScope { open: false };
    assert_eq!(schema_only_ctx(&scope), SchemaOnlyCtx::Shared);
    begin_schema_only_ctx_scope(&mut scope);
    assert_eq!(schema_only_ctx(&scope), SchemaOnlyCtx::Scoped);
    end_schema_only_ctx_scope(&mut scope);
    assert_eq!(schema_only_ctx(&scope), SchemaOnlyCtx::Shared);
}
