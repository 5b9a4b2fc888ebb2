//! Aggregates: the claims on ungrouped extrema, proved and checked by the
//! proof system, and the tables that the checks are handed.
use ark_ff::Zero;
use ark_piop::arithmetic::mat_poly::mle::MLE;
use ark_piop::pcs::PCS;
use ark_piop::prover::structs::polynomial::TrackedPoly;
use ark_piop::prover::ArgProver;
use ark_piop::setup::structs::{SNARKPk, SNARKVk};
use ark_piop::types::CommitmentBinding;
use ark_piop::verifier::ArgVerifier;
use ark_piop::{DefaultSnarkBackend, SnarkBackend};
use std::collections::BTreeMap;
use std::sync::Arc;
use tt_core::aggregate::{
    add_virtual_witness, data_indices, display, find_tracked_index,
    find_tracked_indices_with_segments, group_projection, group_projections, initialize_gadgets,
    initialize_plan_gadgets, is_count_expr, is_extremum_expr, populate_aggregate_function_exprs,
    populate_aggregate_gadget, sum_claim_target, Aggregate, AggregateError, NamedExpr,
    AGG_GROUP_KEY_COL_NAME, PREDICATE_COL_NAME,
};
use tt_core::children::{aggregate_children, row_children, ExprRole, ExprScope, NodeChild};
use tt_core::df_schema::{DfSchema, QualifiedField};
use tt_core::metadata::Metadata;
use tt_core::plan::{Column, Expr, ScalarValue, TableReference};
use tt_core::schema::{DataType, Field};
use tt_core::table::{
    activator_field, Party, Poly, PolyId, Table, TrackedColumn, ACTIVATOR_COL_NAME,
    QUALIFIER_METADATA_KEY,
};

type B = DefaultSnarkBackend;
type F = <B as SnarkBackend>::F;

/// A prover and a verifier whose keys are not read from disk.
fn parties(vars: usize) -> (ArgProver<B>, ArgVerifier<B>) {
    type Mv = <B as SnarkBackend>::MvPCS;
    type Uv = <B as SnarkBackend>::UvPCS;
    let mut rng = ark_std::test_rng();
    let mv = <Mv as PCS<F>>::gen_srs_for_testing(&mut rng, vars).expect("multivariate setup");
    let uv = <Uv as PCS<F>>::gen_srs_for_testing(&mut rng, 1 << vars).expect("univariate setup");
    let (mv_param, mv_vk) = <Mv as PCS<F>>::trim(&mv, None, Some(vars)).expect("trim");
    let (uv_param, uv_vk) = <Uv as PCS<F>>::trim(&uv, Some(1 << vars), None).expect("trim");
    let vk = SNARKVk::<B> {
        log_size: vars,
        mv_pcs_vk: mv_vk,
        uv_pcs_vk: uv_vk,
        indexed_coms: BTreeMap::new(),
    };
    let pk = SNARKPk::<B> {
        log_size: vars,
        mv_pcs_param: Arc::new(mv_param),
        uv_pcs_param: Arc::new(uv_param),
        indexed_tracked_polys: BTreeMap::new(),
        vk: vk.clone(),
    };
    (ArgProver::new_from_pk(pk), ArgVerifier::new_from_vk(vk))
}

/// Commits to a column, to a constant one too.
fn commit(prover: &mut ArgProver<B>, values: Vec<F>) -> TrackedPoly<B> {
    let mle = MLE::from_evaluations_vec(2, values);
    let param = prover.mv_pcs_prover_param();
    let commitment =
        <<B as SnarkBackend>::MvPCS as PCS<F>>::commit(param.as_ref(), &Arc::new(mle.clone()))
            .expect("commit");
    prover
        .track_mat_mv_poly_with_commitment(&mle, commitment, CommitmentBinding::ProofEmitted)
        .expect("track")
}

fn function(name: &str, arg: i64) -> Expr {
    Expr::AggregateFunction {
        func: name.to_string(),
        args: vec![Expr::Literal(ScalarValue::Int64(Some(arg)))],
        distinct: false,
        filter: None,
        order_by: None,
        null_treatment: None,
    }
}

fn extremum(maximum: bool) -> Aggregate {
    let call = function(if maximum { "max" } else { "min" }, 1);
    Aggregate {
        group_expr: vec![],
        aggr_expr: vec![NamedExpr {
            expr: Expr::Alias {
                expr: Box::new(call),
                relation: None,
                name: "extremum".to_string(),
            },
            schema_name: "extremum".to_string(),
        }],
        schema: vec![Field::new("extremum", DataType::UInt8, false)],
    }
}

fn handle(n: usize) -> Poly {
    Poly { id: PolyId::Numbered(n), tracker: 0, log_size: 2 }
}

fn column(name: &str, n: usize) -> TrackedColumn {
    TrackedColumn { field: Field::new(name, DataType::Int64, false), poly: handle(n) }
}

fn output_table() -> Table {
    let cols = vec![
        TrackedColumn { field: Field::new("extremum", DataType::UInt8, false), poly: handle(0) },
        TrackedColumn { field: activator_field(), poly: handle(1) },
    ];
    Table::of(cols, 2)
}

fn number(p: Poly) -> usize {
    match p.id {
        PolyId::Numbered(n) => n,
        PolyId::One => panic!("a committed polynomial is expected"),
    }
}

fn verify_ungrouped_extremum(maximum: bool, activator: Vec<F>) -> Result<(), String> {
    let aggregate = extremum(maximum);
    let (mut prover, mut verifier) = parties(2);
    let polys =
        [commit(&mut prover, vec![F::from(1u64); 4]), commit(&mut prover, activator)];

    let wiring = initialize_gadgets(&aggregate, None, Some(output_table())).expect("wiring");
    let predicate = wiring.boolean.expect("an ungrouped extremum has a Boolean check");
    let boolean = number(predicate.poly_by_name(PREDICATE_COL_NAME).expect("predicate"));
    let target = sum_claim_target(&aggregate, Some(&output_table()))
        .expect("the output carries an activator")
        .expect("an ungrouped extremum has one row");
    let total = number(target);

    let x = &polys[boolean];
    let zero = x * &x.sub_scalar_poly(F::from(1u64));
    prover.add_mv_zerocheck_claim(zero.id()).expect("claim");
    prover.add_mv_sumcheck_claim(polys[total].id(), F::from(1u64)).expect("claim");
    let proof = prover
        .build_proof()
        .expect("proof generation must succeed before checking verifier rejection");

    verifier.set_proof(proof);
    let oracles = [
        verifier.track_mv_com_by_id(polys[0].id()).expect("track"),
        verifier.track_mv_com_by_id(polys[1].id()).expect("track"),
    ];
    let x = &oracles[boolean];
    let zero = x * &x.sub_scalar_oracle(F::from(1u64));
    verifier.add_mv_zerocheck_claim(zero.id());
    verifier.add_mv_sumcheck_claim(oracles[total].id(), F::from(1u64));
    verifier.verify().map_err(|e| format!("{e:?}"))
}

#[test]
fn extremum_ungrouped_verifier_accepts_one_active_representative() {
    for maximum in [true, false] {
        verify_ungrouped_extremum(maximum, [0u64, 0, 1, 0].into_iter().map(F::from).collect())
            .expect("one Boolean active representative must verify");
    }
}

#[test]
fn extremum_ungrouped_verifier_rejects_missing_representative() {
    for maximum in [true, false] {
        assert!(
            verify_ungrouped_extremum(maximum, vec![F::zero(); 4]).is_err(),
            "Booleanity alone must not allow zero representatives"
        );
    }
}

#[test]
fn extremum_ungrouped_verifier_rejects_duplicate_representatives() {
    for maximum in [true, false] {
        assert!(
            verify_ungrouped_extremum(maximum, [1u64, 1, 0, 0].into_iter().map(F::from).collect())
                .is_err(),
            "Booleanity alone must not allow two representatives"
        );
    }
}

#[test]
fn extremum_ungrouped_verifier_rejects_nonboolean_activator_with_sum_one() {
    for maximum in [true, false] {
        assert!(
            verify_ungrouped_extremum(
                maximum,
                vec![F::from(2u64), -F::from(1u64), F::zero(), F::zero()],
            )
            .is_err(),
            "sum one alone must not allow non-Boolean cancellation"
        );
    }
}

#[test]
fn extrema_are_told_by_function_name() {
    assert!(is_extremum_expr(&function("max", 1)));
    assert!(is_extremum_expr(&function("min", 1)));
    assert!(!is_extremum_expr(&function("sum", 1)));
    assert!(is_count_expr(&function("count", 1)));
    assert!(!is_count_expr(&function("max", 1)));
    assert!(extremum(true).needs_ungrouped_extremum_check());
    let mut grouped = extremum(true);
    grouped.group_expr = vec![Expr::Column(Column::new_unqualified("g"))];
    assert!(grouped.has_groups());
    assert!(!grouped.needs_ungrouped_extremum_check());
}

#[test]
fn missing_payloads_are_named() {
    assert_eq!(
        sum_claim_target(&extremum(true), None),
        Err(AggregateError::MissingOutput)
    );
    let bare = Table::of(vec![column("extremum", 0)], 2);
    assert_eq!(
        sum_claim_target(&extremum(true), Some(&bare)),
        Err(AggregateError::MissingActivator)
    );
    let sum = Aggregate {
        group_expr: vec![],
        aggr_expr: vec![NamedExpr { expr: function("sum", 1), schema_name: "sum".to_string() }],
        schema: vec![],
    };
    assert_eq!(sum_claim_target(&sum, None), Ok(None));
}

#[test]
fn children_are_input_check_groups_and_functions() {
    let mut a = extremum(true);
    a.group_expr = vec![Expr::Column(Column::new_unqualified("g"))];
    assert_eq!(
        aggregate_children(&a),
        vec![
            NodeChild::Input,
            NodeChild::Gadget,
            NodeChild::Expr { role: ExprRole::Group, index: 0, scope: ExprScope::Input },
            NodeChild::Expr { role: ExprRole::Aggregate, index: 0, scope: ExprScope::Input },
        ]
    );
}

#[test]
fn data_columns_are_those_without_a_system_name() {
    assert_eq!(data_indices(&output_table()), vec![0]);
}

#[test]
fn a_name_that_occurs_twice_is_found_by_its_qualifier() {
    let mut left = Field::new("id", DataType::Int64, false);
    left.metadata = Metadata::new().with("tt.qualifier".to_string(), "l".to_string());
    let mut right = Field::new("id", DataType::Int64, false);
    right.metadata = Metadata::new().with("tt.qualifier".to_string(), "r".to_string());
    let table = Table::of(
        vec![
            TrackedColumn { field: left, poly: handle(0) },
            TrackedColumn { field: right, poly: handle(1) },
        ],
        2,
    );
    assert_eq!(find_tracked_index(&table, "id", &Some("r".to_string())), Some(1));
    assert_eq!(find_tracked_index(&table, "other", &None), None);
}

#[test]
fn segments_of_a_group_keep_to_their_qualifier() {
    let under = |name: &str, qualifier: Option<&str>| {
        let field = Field::new(name, DataType::Int64, false);
        let field = match qualifier {
            Some(q) => field.with_metadata(
                Metadata::new().with(QUALIFIER_METADATA_KEY.to_string(), q.to_string()),
            ),
            None => field,
        };
        TrackedColumn { field, poly: handle(0) }
    };
    let found = |table: &Table, qualifier: Option<&str>| {
        find_tracked_indices_with_segments(table, "a", &qualifier.map(|q| q.to_string()))
    };
    let two = Table::of(vec![under("a", None), under("a", Some("t"))], 2);
    assert_eq!(found(&two, Some("t")), vec![1]);
    assert_eq!(found(&two, None), vec![0, 1]);
    assert_eq!(found(&two, Some("x")), vec![0, 1]);
    // An auxiliary segment without a qualifier goes with the qualified primary.
    let segments = Table::of(
        vec![
            under("a", Some("t")),
            under("a__length", None),
            under("a", Some("u")),
            under("a__length", Some("u")),
            under("b", Some("t")),
        ],
        2,
    );
    assert_eq!(found(&segments, Some("t")), vec![0, 1]);
}

#[test]
fn both_parties_form_the_same_output() {
    let table = |party: Party| {
        add_virtual_witness(&extremum(true), &output_table(), Some(&output_table()), None, party)
            .map(|t| t.cols.iter().map(|c| (c.field.name.clone(), c.poly)).collect::<Vec<_>>())
    };
    assert_eq!(table(Party::Prover), table(Party::Verifier));
}

#[test]
fn the_text_lists_groups_and_functions() {
    assert_eq!(
        display("TableScan", &vec!["g".to_string(), "h".to_string()], &vec![]),
        "Aggregate\nInput: TableScan, groups: g, h, aggs: none"
    );
}

fn grouped(key: Expr) -> Aggregate {
    Aggregate {
        group_expr: vec![key],
        aggr_expr: vec![
            NamedExpr { expr: function("max", 1), schema_name: "m".to_string() },
            NamedExpr { expr: function("count", 1), schema_name: "n".to_string() },
        ],
        schema: vec![
            Field::new("g", DataType::Int64, false),
            Field::new("m", DataType::Int64, false),
            Field::new("n", DataType::Int64, false),
        ],
    }
}

fn group(name: &str) -> Expr {
    Expr::Column(Column::new_unqualified(name))
}

fn grouped_table() -> Table {
    Table::of(
        vec![
            column("g", 1),
            column("m", 2),
            TrackedColumn { field: activator_field(), poly: handle(3) },
        ],
        2,
    )
}

#[test]
fn the_gadget_is_handed_the_group_keys() {
    let (input, output) =
        populate_aggregate_gadget(&grouped(group("g")), &grouped_table(), &grouped_table())
            .expect("the key is a column");
    for t in [&input, &output] {
        assert_eq!(t.poly_by_name("g"), Some(handle(1)));
        assert_eq!(t.activator(), Some(handle(3)));
        assert_eq!(t.poly_by_name("m"), None);
    }
    let computed = grouped(Expr::Literal(ScalarValue::Int64(Some(1))));
    assert_eq!(
        populate_aggregate_gadget(&computed, &grouped_table(), &grouped_table()).err(),
        Some(AggregateError::GroupNotColumn)
    );
    // Without groups all rows share one constant key.
    let (input, _) = populate_aggregate_gadget(&extremum(true), &grouped_table(), &grouped_table())
        .expect("the tables have columns");
    assert_eq!(input.cols[0].field.name, AGG_GROUP_KEY_COL_NAME);
    assert_eq!(input.cols[0].poly.id, PolyId::One);
    let empty = Table::of(vec![], 2);
    assert_eq!(
        populate_aggregate_gadget(&extremum(true), &empty, &grouped_table()).err(),
        Some(AggregateError::NoColumns)
    );
    assert_eq!(
        initialize_gadgets(&grouped(group("g")), None, Some(grouped_table())).err(),
        Some(AggregateError::MissingInput)
    );
}

#[test]
fn functions_are_handed_their_results() {
    let tables = populate_aggregate_function_exprs(&grouped(group("g")), &grouped_table())
        .expect("all columns are found");
    assert_eq!(tables.groups.poly_by_name("g"), Some(handle(1)));
    assert_eq!(tables.columns.len(), 2);
    let max = tables.columns[0].as_ref().expect("a maximum is handed its column");
    assert_eq!(max.poly_by_name("m"), Some(handle(2)));
    assert!(tables.columns[1].is_none(), "a count comes from the multiplicities");
    assert_eq!(
        populate_aggregate_function_exprs(&grouped(group("h")), &grouped_table()).err(),
        Some(AggregateError::Unresolved)
    );
}

#[test]
fn an_aggregate_hands_on_what_is_there() {
    let a = grouped(group("g"));
    for party in [Party::Prover, Party::Verifier] {
        assert!(initialize_plan_gadgets(&a, Some(&grouped_table()), None, party)
            .expect("nothing to hand on")
            .is_none());
        let wiring = initialize_plan_gadgets(&a, None, Some(&grouped_table()), party)
            .expect("all columns are found")
            .expect("the output is there");
        assert!(wiring.gadget.is_none());
        let wiring =
            initialize_plan_gadgets(&a, Some(&grouped_table()), Some(&grouped_table()), party)
                .expect("all columns are found")
                .expect("the output is there");
        let (input, _) = wiring.gadget.expect("both sides are there");
        assert_eq!(input.poly_by_name("g"), Some(handle(1)));
        // Only the verifier wires the functions.
        assert_eq!(
            wiring.functions.map(|f| f.columns.len()),
            match party {
                Party::Prover => None,
                Party::Verifier => Some(2),
            }
        );
    }
    // The functions come before the gadget.
    let unresolved = grouped(group("h"));
    assert_eq!(
        initialize_plan_gadgets(&unresolved, None, Some(&grouped_table()), Party::Verifier).err(),
        Some(AggregateError::Unresolved)
    );
    assert!(initialize_plan_gadgets(&unresolved, None, Some(&grouped_table()), Party::Prover)
        .is_ok());
    let empty = Table::of(vec![], 2);
    assert_eq!(
        initialize_plan_gadgets(&extremum(true), None, Some(&empty), Party::Verifier).err(),
        Some(AggregateError::NoColumns)
    );
    assert_eq!(
        initialize_plan_gadgets(&extremum(true), Some(&empty), Some(&empty), Party::Prover).err(),
        Some(AggregateError::NoColumns)
    );
}

#[test]
fn counts_are_the_multiplicities() {
    let a = grouped(group("g"));
    assert_eq!(a.count_output_names(), vec!["n"]);
    let multiplicities = Table::of(vec![column("mult", 7)], 2);
    for party in [Party::Prover, Party::Verifier] {
        let t = add_virtual_witness(
            &a,
            &grouped_table(),
            Some(&grouped_table()),
            Some(&multiplicities),
            party,
        )
        .expect("one column of multiplicities");
        assert_eq!(t.poly_by_name("n"), Some(handle(7)));
        assert_eq!(t.poly_by_name("m"), Some(handle(2)));
    }
    assert_eq!(
        add_virtual_witness(
            &a,
            &grouped_table(),
            Some(&grouped_table()),
            Some(&grouped_table()),
            Party::Prover,
        )
        .err(),
        Some(AggregateError::Multiplicities)
    );
}

#[test]
fn groups_are_projected_with_the_system_columns() {
    let schema = DfSchema {
        fields: vec![
            QualifiedField { qualifier: None, field: Field::new("g", DataType::Int64, false) },
            QualifiedField { qualifier: None, field: activator_field() },
        ],
    };
    // The qualifier of a group expression may be stale.
    let stale = Expr::Column(Column::new(
        Some(TableReference::Bare { table: "old".to_string() }),
        "g",
    ));
    let exprs = group_projection(&schema, &vec![stale]);
    let names: Vec<String> = exprs
        .iter()
        .map(|e| match e {
            Expr::Column(c) => c.flat_name(),
            _ => panic!("a column is expected"),
        })
        .collect();
    assert_eq!(names, vec!["g", ACTIVATOR_COL_NAME]);
    let a = grouped(group("g"));
    assert!(group_projections(&a, Some(&schema), None).is_none());
    let (input, output) =
        group_projections(&a, Some(&schema), Some(&schema)).expect("both are planned");
    assert_eq!((input.len(), output.len()), (2, 2));
    let fields = grouped(group("g")).output_fields(&schema);
    let names: Vec<&str> = fields.iter().map(|f| f.name.as_str()).collect();
    assert_eq!(names, vec!["g", "m", "n", ACTIVATOR_COL_NAME]);
    assert_eq!(
        row_children(),
        vec![NodeChild::Input, NodeChild::Gadget]
    );
}
