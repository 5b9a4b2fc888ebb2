//! LIMIT on real activators: the claims that the library lists are proved and
//! checked by the proof system.
use ark_ff::{BigInteger, Field as ArkField, PrimeField, Zero};
use ark_piop::arithmetic::mat_poly::mle::MLE;
use ark_piop::prover::structs::polynomial::TrackedPoly;
use ark_piop::prover::ArgProver;
use ark_piop::pcs::PCS;
use ark_piop::setup::structs::{SNARKPk, SNARKVk};
use ark_piop::verifier::structs::oracle::TrackedOracle;
use ark_piop::verifier::ArgVerifier;
use ark_piop::{DefaultSnarkBackend, SnarkBackend};
use std::collections::BTreeMap;
use std::sync::Arc;
use tt_core::limit::{
    activator_only, checked_capacity, choose_prefix, claims, contig_s_from_fetch, ensure_no_skip,
    expect_prefix, fetch_limit_literal, initialize_gadgets, limited_table, locate_activators,
    payload_shape, read_prefix, requires_all_input, ActivatorTable, ActivatorTables,
    CommittedCount, Constant, LimitActivators, LimitClaim, LimitConstants, LimitError,
    LimitPayload, OutputConstant,
};
use tt_core::plan::{Column, Expr, ScalarValue};
use tt_core::schema::{DataType, Field};
use tt_core::table::{
    activator_field, Poly, PolyId, Table, TrackedColumn, ACTIVATOR_COL_NAME,
};

type B = DefaultSnarkBackend;
type F = <B as SnarkBackend>::F;

const NV: usize = 2;

/// The bounds of a LIMIT.
struct Limit {
    skip: Option<Box<Expr>>,
    fetch: Option<Box<Expr>>,
}

fn int64(value: i64) -> Option<Box<Expr>> {
    Some(Box::new(Expr::Literal(ScalarValue::Int64(Some(value)))))
}

fn limit(fetch: Option<usize>) -> Limit {
    Limit { skip: None, fetch: fetch.and_then(|count| int64(count as i64)) }
}

fn bytes(value: F) -> Vec<u8> {
    value.into_bigint().to_bytes_le()
}

fn modulus() -> Vec<u8> {
    F::MODULUS.to_bytes_le()
}

fn payload() -> Option<LimitPayload> {
    let table = ActivatorTable { log_size: NV, data_columns: 1 };
    Some(LimitPayload { input: Some(table), output: Some(table) })
}

fn constant(value: Option<F>) -> Constant {
    match value {
        None => Constant::Varies,
        Some(v) if v.is_zero() => Constant::Zero,
        Some(_) => Constant::NonZero,
    }
}

fn output_constant(value: Option<F>, count: F) -> OutputConstant {
    match value {
        None => OutputConstant::Varies,
        Some(v) if v * F::from(1u64 << NV) == count => OutputConstant::SumMatches,
        Some(_) => OutputConstant::SumDiffers,
    }
}

fn inverse_domain() -> F {
    F::from(2u64).pow([NV as u64]).inverse().expect("the domain size is invertible")
}

/// A prover and a verifier whose keys are not read from disk.
fn parties(vars: usize) -> (ArgProver<B>, ArgVerifier<B>) {
    type Mv = <B as SnarkBackend>::MvPCS;
    type Uv = <B as SnarkBackend>::UvPCS;
    let mut rng = ark_std::test_rng();
    let mv = <Mv as PCS<F>>::gen_srs_for_testing(&mut rng, vars).expect("multivariate setup");
    let uv = <Uv as PCS<F>>::gen_srs_for_testing(&mut rng, 1 << vars).expect("univariate setup");
    let (mv_param, mv_vk) = <Mv as PCS<F>>::trim(&mv, None, Some(vars)).expect("trim");
    let (uv_param, uv_vk) = <Uv as PCS<F>>::trim(&uv, Some(1 << vars), None).expect("trim");
    let vk = SNARKVk::<B> {
        log_size: vars,
        mv_pcs_vk: mv_vk,
        uv_pcs_vk: uv_vk,
        indexed_coms: BTreeMap::new(),
    };
    let pk = SNARKPk::<B> {
        log_size: vars,
        mv_pcs_param: Arc::new(mv_param),
        uv_pcs_param: Arc::new(uv_param),
        indexed_tracked_polys: BTreeMap::new(),
        vk: vk.clone(),
    };
    (ArgProver::new_from_pk(pk), ArgVerifier::new_from_vk(vk))
}

struct Activators {
    prover: ArgProver<B>,
    verifier: ArgVerifier<B>,
    input: TrackedPoly<B>,
    output: TrackedPoly<B>,
}

/// Commits to the input activator and to its prefix.
fn activators(input: [u64; 4], prefix: usize) -> Activators {
    assert!(prefix <= input.len());
    let (mut prover, verifier) = parties(4);
    let input_values: Vec<F> = input.iter().copied().map(F::from).collect();
    let output_values: Vec<F> = input
        .iter()
        .enumerate()
        .map(|(i, v)| F::from(if i < prefix { *v } else { 0 }))
        .collect();
    let input = prover
        .track_and_commit_mat_mv_poly(&MLE::from_evaluations_vec(NV, input_values))
        .expect("commit to the input activator");
    let output = prover
        .track_and_commit_mat_mv_poly(&MLE::from_evaluations_vec(NV, output_values))
        .expect("commit to the output activator");
    Activators { prover, verifier, input, output }
}

/// The prover's part: commits to the count and adds the listed claims.
fn prove(limit: &Limit, x: &mut Activators) -> Result<(), String> {
    let count: F = x.output.evaluations().iter().copied().sum();
    let committed = x
        .prover
        .track_and_commit_mat_mv_poly(&MLE::from_evaluations_vec(0, vec![count]))
        .map_err(|e| format!("{e:?}"))?;
    let boolean = &x.input * &x.input.sub_scalar_poly(F::from(1u64));
    let omitted = &x.input - &x.output;
    let list = claims(
        &limit.skip,
        &limit.fetch,
        payload(),
        &CommittedCount { num_vars: 0, value: Some(bytes(count)) },
        &modulus(),
        LimitConstants {
            input_boolean: constant(boolean.as_constant()),
            output: output_constant(x.output.as_constant(), count),
            omitted_rows: constant(omitted.as_constant()),
        },
    )
    .map_err(|e| e.message())?;
    for claim in list {
        match claim {
            LimitClaim::InputBoolean => x.prover.add_mv_zerocheck_claim(boolean.id()),
            LimitClaim::OutputCount => {
                let density = committed.mul_scalar_poly(inverse_domain());
                let difference = &x.output - &density;
                x.prover.add_mv_sumcheck_claim(difference.id(), F::zero())
            }
            LimitClaim::KeepAll => x.prover.add_mv_zerocheck_claim(omitted.id()),
        }
        .map_err(|e| format!("{e:?}"))?;
    }
    Ok(())
}

/// The verifier's part: finds the count and adds the listed claims.
fn list_and_add_claims(limit: &Limit, x: &mut Activators) -> Result<(), String> {
    let input = x.verifier.track_mv_com_by_id(x.input.id()).map_err(|e| format!("{e:?}"))?;
    let output = x.verifier.track_mv_com_by_id(x.output.id()).map_err(|e| format!("{e:?}"))?;
    let committed: TrackedOracle<B> =
        x.verifier.track_next_mv_com().map_err(|e| format!("{e:?}"))?;
    let count = committed.as_constant();
    let boolean = &input * &input.sub_scalar_oracle(F::from(1u64));
    let omitted = &input - &output;
    let list = claims(
        &limit.skip,
        &limit.fetch,
        payload(),
        &CommittedCount { num_vars: committed.log_size(), value: count.map(bytes) },
        &modulus(),
        LimitConstants {
            input_boolean: constant(boolean.as_constant()),
            output: output_constant(output.as_constant(), count.unwrap_or_default()),
            omitted_rows: constant(omitted.as_constant()),
        },
    )
    .map_err(|e| e.message())?;
    for claim in list {
        match claim {
            LimitClaim::InputBoolean => x.verifier.add_mv_zerocheck_claim(boolean.id()),
            LimitClaim::OutputCount => {
                let density = committed.mul_scalar_oracle(inverse_domain());
                let difference = &output - &density;
                x.verifier.add_mv_sumcheck_claim(difference.id(), F::zero())
            }
            LimitClaim::KeepAll => x.verifier.add_mv_zerocheck_claim(omitted.id()),
        }
    }
    Ok(())
}

fn verify(limit: &Limit, x: &mut Activators) -> Result<(), String> {
    list_and_add_claims(limit, x)?;
    x.verifier.verify().map_err(|e| format!("{e:?}"))
}

/// Proves and verifies. The proof system makes no proof without a claim, so
/// the sum of an unrelated column is claimed behind the claims of the LIMIT.
fn run(limit: &Limit, input: [u64; 4], prefix: usize) -> Result<(), String> {
    let mut x = activators(input, prefix);
    prove(limit, &mut x)?;
    let values: Vec<F> = (1..5u64).map(F::from).collect();
    let unrelated = x
        .prover
        .track_and_commit_mat_mv_poly(&MLE::from_evaluations_vec(NV, values))
        .map_err(|e| format!("{e:?}"))?;
    x.prover
        .add_mv_sumcheck_claim(unrelated.id(), F::from(10u64))
        .map_err(|e| format!("{e:?}"))?;
    let proof = x.prover.build_proof().map_err(|e| format!("{e:?}"))?;
    x.verifier.set_proof(proof);
    list_and_add_claims(limit, &mut x)?;
    let oracle =
        x.verifier.track_mv_com_by_id(unrelated.id()).map_err(|e| format!("{e:?}"))?;
    x.verifier.add_mv_sumcheck_claim(oracle.id(), F::from(10u64));
    x.verifier.verify().map_err(|e| format!("{e:?}"))
}

/// Proves only true claims for the supplied, possibly wrong, output, so that
/// a rejection is the verifier's.
fn verify_supplied_prefix(
    limit: &Limit,
    input: [u64; 4],
    prefix: usize,
    reported_output_count: u64,
    include_input_boolean_claim: bool,
) -> Result<(), String> {
    let mut x = activators(input, prefix);
    let reported = F::from(reported_output_count);
    let committed = x
        .prover
        .track_and_commit_mat_mv_poly(&MLE::from_evaluations_vec(0, vec![reported]))
        .map_err(|e| format!("{e:?}"))?;
    if include_input_boolean_claim {
        let boolean = &x.input * &x.input.sub_scalar_poly(F::from(1u64));
        x.prover
            .add_mv_zerocheck_claim(boolean.id())
            .expect("the supplied Boolean identity is true");
    }
    let density = committed.mul_scalar_poly(inverse_domain());
    let difference = &x.output - &density;
    x.prover
        .add_mv_sumcheck_claim(difference.id(), F::zero())
        .map_err(|e| format!("{e:?}"))?;
    if requires_all_input(&limit.fetch, &bytes(reported), NV, &modulus()).unwrap_or(false) {
        // An unrelated true claim in place of the required relation.
        let fake = &x.output - &x.output;
        x.prover
            .add_mv_zerocheck_claim(fake.id())
            .expect("the supplied zero identity is true");
    }
    let proof = x.prover.build_proof().map_err(|e| format!("{e:?}"))?;
    x.verifier.set_proof(proof);
    verify(limit, &mut x)
}

#[test]
fn sparse_limit_honest_prefix_verifies() {
    run(&limit(Some(2)), [1, 0, 1, 1], 3).unwrap();
}

#[test]
fn output_count_is_a_transcript_bound_constant() {
    let mut x = activators([1, 0, 1, 1], 3);
    prove(&limit(Some(2)), &mut x).unwrap();
    let proof = x.prover.build_proof().unwrap();
    assert!(proof.miscellaneous_field_elements.is_empty());
    assert!(proof
        .mv_pcs_subproof
        .unique_constants
        .values()
        .any(|value| *value == F::from(2u64)));
}

#[test]
fn oversized_limit_keeps_all_active_rows() {
    run(&limit(Some(10)), [1, 0, 1, 1], 4).unwrap();
}

#[test]
fn zero_limit_selects_no_rows() {
    run(&limit(Some(0)), [1, 0, 1, 1], 0).unwrap();
}

#[test]
fn absent_fetch_keeps_all_active_rows() {
    run(&limit(None), [1, 0, 1, 1], 4).unwrap();
}

#[test]
fn empty_input_has_empty_output() {
    run(&limit(Some(2)), [0, 0, 0, 0], 4).unwrap();
}

#[test]
fn supplied_correct_prefix_verifies() {
    verify_supplied_prefix(&limit(Some(2)), [1, 0, 1, 1], 3, 2, true).unwrap();
}

#[test]
fn shorter_prefix_rejected_by_verifier() {
    assert!(verify_supplied_prefix(&limit(Some(2)), [1, 0, 1, 1], 1, 1, true).is_err());
}

#[test]
fn longer_prefix_rejected_by_verifier() {
    assert!(verify_supplied_prefix(&limit(Some(2)), [1, 0, 1, 1], 4, 3, true).is_err());
}

#[test]
fn false_output_count_cannot_justify_shorter_prefix() {
    assert!(verify_supplied_prefix(&limit(Some(2)), [1, 0, 1, 1], 1, 2, true).is_err());
}

#[test]
fn non_boolean_input_cannot_fake_the_fetch_count() {
    // One value of two sums to two, but is not two active rows. The supplied
    // proof has the sum claim only; the Boolean claim is the verifier's own.
    assert!(verify_supplied_prefix(&limit(Some(2)), [2, 0, 0, 0], 1, 2, false).is_err());
}

#[test]
fn oversized_limit_cannot_omit_rows() {
    assert!(verify_supplied_prefix(&limit(Some(10)), [1, 0, 1, 1], 3, 2, true).is_err());
}

#[test]
fn zero_and_absent_fetch_are_enforced_by_verifier() {
    assert!(verify_supplied_prefix(&limit(Some(0)), [1, 0, 1, 1], 1, 1, true).is_err());
    assert!(verify_supplied_prefix(&limit(None), [1, 0, 1, 1], 3, 2, true).is_err());
}

#[test]
fn offset_and_negative_fetch_fail_closed() {
    let mut with_offset = limit(Some(2));
    with_offset.skip = int64(1);
    assert!(run(&with_offset, [1, 1, 1, 1], 2).is_err());

    let mut negative_fetch = limit(Some(2));
    negative_fetch.fetch = int64(-1);
    assert!(run(&negative_fetch, [1, 1, 1, 1], 2).is_err());
}

#[test]
fn output_count_must_be_bounded_without_wrap() {
    let two = limit(Some(2));
    assert!(requires_all_input(&two.fetch, &bytes(F::from(5u64)), NV, &modulus()).is_err());
    assert!(requires_all_input(&two.fetch, &bytes(-F::from(1u64)), NV, &modulus()).is_err());
    assert!(checked_capacity(F::MODULUS_BIT_SIZE as usize, &modulus()).is_err());
    // A field of seventeen elements.
    assert_eq!(checked_capacity(4, &vec![17]).unwrap(), 16);
    assert!(checked_capacity(5, &vec![17]).is_err());
}

#[test]
fn each_refusal_names_its_reason() {
    let two = limit(Some(2));
    let count = |n: u64| CommittedCount { num_vars: 0, value: Some(bytes(F::from(n))) };
    let varies = LimitConstants {
        input_boolean: Constant::Varies,
        output: OutputConstant::Varies,
        omitted_rows: Constant::Varies,
    };
    let ask = |l: &Limit, p: Option<LimitPayload>, c: &CommittedCount, k: LimitConstants| {
        claims(&l.skip, &l.fetch, p, c, &modulus(), k)
    };
    let table = ActivatorTable { log_size: NV, data_columns: 1 };
    assert_eq!(ask(&two, None, &count(2), varies), Err(LimitError::PayloadMissing));
    assert_eq!(
        ask(&two, Some(LimitPayload { input: None, output: Some(table) }), &count(2), varies),
        Err(LimitError::InputMissing)
    );
    assert_eq!(
        ask(&two, Some(LimitPayload { input: Some(table), output: None }), &count(2), varies),
        Err(LimitError::OutputMissing)
    );
    let wide = ActivatorTable { log_size: NV, data_columns: 2 };
    let long = ActivatorTable { log_size: 3, data_columns: 1 };
    assert_eq!(
        ask(&two, Some(LimitPayload { input: Some(table), output: Some(long) }), &count(2), varies),
        Err(LimitError::DimensionsDiffer)
    );
    assert_eq!(
        ask(&two, Some(LimitPayload { input: Some(wide), output: Some(table) }), &count(2), varies),
        Err(LimitError::InputColumns)
    );
    assert_eq!(
        ask(&two, Some(LimitPayload { input: Some(table), output: Some(wide) }), &count(2), varies),
        Err(LimitError::OutputColumns)
    );
    let variables = CommittedCount { num_vars: 1, value: Some(bytes(F::from(2u64))) };
    assert_eq!(ask(&two, payload(), &variables, varies), Err(LimitError::CountHasVariables));
    let unknown = CommittedCount { num_vars: 0, value: None };
    assert_eq!(ask(&two, payload(), &unknown, varies), Err(LimitError::CountNotScalar));
    assert_eq!(ask(&two, payload(), &count(3), varies), Err(LimitError::CountExceedsFetch));
    assert_eq!(ask(&two, payload(), &count(5), varies), Err(LimitError::CountExceedsCapacity));
    let not_boolean = LimitConstants { input_boolean: Constant::NonZero, ..varies };
    assert_eq!(ask(&two, payload(), &count(2), not_boolean), Err(LimitError::InputNotBoolean));
    let wrong_sum = LimitConstants { output: OutputConstant::SumDiffers, ..varies };
    assert_eq!(ask(&two, payload(), &count(2), wrong_sum), Err(LimitError::CountIncorrect));
    let omitted = LimitConstants { omitted_rows: Constant::NonZero, ..varies };
    assert_eq!(ask(&two, payload(), &count(1), omitted), Err(LimitError::OmittedRow));
    // At the fetch nothing is said of omitted rows.
    assert_eq!(
        ask(&two, payload(), &count(2), omitted),
        Ok(vec![LimitClaim::InputBoolean, LimitClaim::OutputCount])
    );
    assert_eq!(
        ask(&two, payload(), &count(1), varies),
        Ok(vec![LimitClaim::InputBoolean, LimitClaim::OutputCount, LimitClaim::KeepAll])
    );
}

#[test]
fn the_prefix_ends_at_the_last_fetched_row() {
    let active = vec![true, false, true, true];
    assert_eq!(contig_s_from_fetch(&active, Some(2), 4), 3);
    assert_eq!(contig_s_from_fetch(&active, Some(3), 4), 4);
    assert_eq!(contig_s_from_fetch(&active, Some(0), 4), 0);
    assert_eq!(contig_s_from_fetch(&active, None, 4), 4);
    assert_eq!(contig_s_from_fetch(&active, Some(9), 4), 4);
}

#[test]
fn only_a_zero_skip_is_accepted() {
    assert_eq!(ensure_no_skip(&None), Ok(()));
    assert_eq!(ensure_no_skip(&int64(0)), Ok(()));
    assert!(ensure_no_skip(&int64(1)).is_err());
    assert!(ensure_no_skip(&int64(-1)).is_err());
    assert_eq!(fetch_limit_literal(&int64(7)), Some(7));
    assert_eq!(fetch_limit_literal(&None), None);
}

#[test]
fn a_limited_table_has_the_masked_activator() {
    let poly = |n: usize| Poly { id: PolyId::Numbered(n), tracker: 0, log_size: 2 };
    let table = || Table {
        schema: None,
        cols: vec![
            TrackedColumn { field: Field::new("v", DataType::Int64, false), poly: poly(1) },
            TrackedColumn { field: activator_field(), poly: poly(2) },
        ],
        side_cols: vec![],
        log_size: 2,
    };
    let kept = limited_table(table(), None);
    assert_eq!(kept.poly_by_name(ACTIVATOR_COL_NAME), Some(poly(2)));
    let limited = limited_table(table(), Some(poly(9)));
    assert_eq!(limited.poly_by_name(ACTIVATOR_COL_NAME), Some(poly(9)));
    assert_eq!(limited.poly_by_name("v"), Some(poly(1)));
    let alone = activator_only(&table(), "a").expect("the table has an activator");
    assert_eq!(alone.cols.len(), 1);
    assert_eq!(alone.poly_by_name("a"), Some(poly(2)));
    let handed = initialize_gadgets(Some(&table()), None).expect("the table has an activator");
    assert_eq!(
        handed.input.expect("the input is there").poly_by_name("input_activator"),
        Some(poly(2))
    );
    assert!(handed.output.is_none());
    assert!(initialize_gadgets(Some(&Table::of(vec![], 2)), None).is_none());
}

#[test]
fn both_parties_agree_on_the_prefix() {
    let poly = |n: usize| Poly { id: PolyId::Numbered(n), tracker: 0, log_size: NV };
    let table =
        Table::of(vec![TrackedColumn { field: activator_field(), poly: poly(2) }], NV);
    let empty = Table::of(vec![], NV);
    let active = vec![false, true, true, false];
    let choose = |skip, fetch, input| choose_prefix(&skip, &fetch, input, &active, &modulus());
    assert_eq!(choose(None, int64(1), Some(&table)), Ok(Some(2)));
    assert_eq!(choose(None, None, Some(&table)), Ok(Some(4)));
    assert_eq!(choose(None, int64(1), None), Ok(None));
    assert_eq!(choose(None, int64(1), Some(&empty)), Ok(None));
    assert_eq!(choose(int64(3), int64(1), None), Err(LimitError::Offset(3)));
    assert_eq!(
        choose_prefix(&None, &None, Some(&table), &active, &vec![3]),
        Err(LimitError::CapacityNotBelowModulus)
    );
    let expect = |skip, n: u64, input| {
        expect_prefix(&skip, input, &Some(bytes(F::from(n))), 0, &modulus())
    };
    assert_eq!(expect(None, 2, Some(&table)), Ok(Some(2)));
    assert_eq!(expect(None, 5, Some(&table)), Err(LimitError::PrefixExceedsCapacity));
    assert_eq!(expect(None, 2, None), Ok(None));
    assert_eq!(expect(int64(3), 2, Some(&table)), Err(LimitError::Offset(3)));
}

#[test]
fn offsets_and_fetches_that_are_no_literals_are_told_apart() {
    assert_eq!(ensure_no_skip(&int64(1)), Err(LimitError::Offset(1)));
    assert_eq!(ensure_no_skip(&int64(-1)), Err(LimitError::OffsetNegative(-1)));
    let column = || Some(Box::new(Expr::Column(Column::new_unqualified("n"))));
    assert_eq!(ensure_no_skip(&column()), Err(LimitError::OffsetNotLiteral));
    assert_eq!(
        requires_all_input(&column(), &bytes(F::from(1u64)), NV, &modulus()),
        Err(LimitError::FetchNotLiteral)
    );
    assert_eq!(
        LimitError::OffsetNegative(i64::MIN).message(),
        "LIMIT offset could not be parsed: Error during planning: OFFSET must be >=0, \
         '-9223372036854775808' was provided"
    );
    assert_eq!(
        LimitError::Offset(u64::MAX).message(),
        "LIMIT offset is unsupported (skip=18446744073709551615)"
    );
}

#[test]
fn a_committed_prefix_is_a_scalar_within_the_rows() {
    let scalar = |n: u64| Some(bytes(F::from(n)));
    assert_eq!(read_prefix(&scalar(4), 0, NV, &modulus()), Ok(4));
    assert_eq!(
        read_prefix(&scalar(5), 0, NV, &modulus()),
        Err(LimitError::PrefixExceedsCapacity)
    );
    assert_eq!(read_prefix(&None, 0, NV, &modulus()), Err(LimitError::PrefixNotScalar));
    assert_eq!(read_prefix(&scalar(1), 2, NV, &modulus()), Err(LimitError::PrefixHasVariables));
    assert_eq!(
        read_prefix(&Some(vec![255; 9]), 0, NV, &modulus()),
        Err(LimitError::NotUsize)
    );
    assert_eq!(checked_capacity(64, &modulus()), Err(LimitError::CapacityNotUsize));
    assert_eq!(checked_capacity(5, &vec![17]), Err(LimitError::CapacityNotBelowModulus));
}

#[test]
fn activators_are_located_or_refused() {
    let number = |n: usize| Poly { id: PolyId::Numbered(n), tracker: 0, log_size: NV };
    let table = |names: &[&str], log_size: usize| {
        Some(Table::of(
            names
                .iter()
                .enumerate()
                .map(|(i, name)| TrackedColumn {
                    field: Field::new(name, DataType::Boolean, false),
                    poly: number(i + 1),
                })
                .collect(),
            log_size,
        ))
    };
    let found = |input: Option<Table>, output: Option<Table>| {
        let tables = ActivatorTables { input, output };
        let located = locate_activators(&None, Some(&tables));
        // The claims refuse what is not located, for the same reason.
        let listed = claims(
            &None,
            &int64(1),
            payload_shape(Some(&tables)),
            &CommittedCount { num_vars: 0, value: Some(vec![1]) },
            &modulus(),
            LimitConstants {
                input_boolean: Constant::Varies,
                output: OutputConstant::Varies,
                omitted_rows: Constant::Varies,
            },
        );
        assert_eq!(located.err(), listed.err());
        located
    };
    let one = || table(&["x"], NV);
    assert_eq!(
        found(one(), table(&[ACTIVATOR_COL_NAME, "x"], NV)),
        Ok(LimitActivators { input: number(1), output: number(2), log_size: NV })
    );
    assert_eq!(found(None, None), Err(LimitError::InputMissing));
    assert_eq!(found(one(), None), Err(LimitError::OutputMissing));
    assert_eq!(found(one(), table(&["x"], NV + 1)), Err(LimitError::DimensionsDiffer));
    assert_eq!(found(table(&[], NV), one()), Err(LimitError::InputColumns));
    assert_eq!(found(one(), table(&["x", "y"], NV)), Err(LimitError::OutputColumns));
    assert_eq!(locate_activators(&None, None), Err(LimitError::PayloadMissing));
    assert_eq!(locate_activators(&int64(2), None), Err(LimitError::Offset(2)));
    assert_eq!(payload_shape(None), None);
}
