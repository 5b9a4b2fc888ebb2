//! The planned tables of a join, and what is kept of them while planning.
use crate::caches::ScopedCache;
use crate::constraints::{Constraints, TableConstraintView};
use crate::df_schema::{DfSchema, QFieldView};
use crate::hints::{
    annotated_are_distinct, annotated_field, copy_hint, flag_of, flag_or_true, hint_view,
    normalization_keeps_columns, normalized_flags, uniform_flags, uniform_flags_agree, with_flag,
    HintDF, HintView,
};
use crate::join_scope::{
    all_set, build_nodup_input_hint, build_source_hint, ensure_supported_join,
    force_materialize_all, force_materialize_row_id, is_row_id_flag, pair_flags, pair_shape,
    row_ids_set, source_flags, source_rows_are_materialized, source_shape, unsupported,
    verifier_pair_schema, verifier_source_schema, Join, JoinUnsupported, SRC_LEFT_COL_NAME,
    SRC_RIGHT_COL_NAME,
};
use crate::schema::FieldView;
use crate::seqs::{first_index, lemma_first_index};
use vstd::prelude::*;

verus! {

// ---------------------------------------------------------------------------
// Planned tables
// ---------------------------------------------------------------------------

/// The flags with the row number materialized, where its first flag is not
/// set.
pub open spec fn with_row_id_materialized(
    store: Map<Seq<char>, TableConstraintView>,
    h: HintView,
) -> HintView {
    match first_index(h.flags, is_row_id_flag()) {
        Some(i) => if h.flags[i].1 {
            h
        } else {
            HintView {
                schema: h.schema,
                flags: normalized_flags(store, h.schema, row_ids_set(h.flags)),
            }
        },
        None => h,
    }
}

/// Whether every flag is set.
pub open spec fn all_flags_set(flags: Seq<(FieldView, bool)>) -> bool {
    forall|i: int| 0 <= i < flags.len() ==> (#[trigger] flags[i]).1
}

/// A planned table with all of its columns materialized.
pub open spec fn with_all_materialized(
    store: Map<Seq<char>, TableConstraintView>,
    h: HintView,
) -> HintView {
    if all_flags_set(h.flags) {
        h
    } else {
        HintView {
            schema: h.schema,
            flags: normalized_flags(store, h.schema, all_set(h.flags)),
        }
    }
}

/// A table of the plan as a join reads it: with every column materialized.
pub open spec fn concrete(store: Map<Seq<char>, TableConstraintView>, h: HintView) -> HintView {
    with_all_materialized(store, with_row_id_materialized(store, h))
}

/// A table of the plan as a join reads it.
pub fn make_concrete(store: &Constraints, hint: HintDF) -> (r: HintDF)
    ensures
        hint_view(r) == concrete(store@, hint_view(hint)),
{
    let ghost before = hint_view(hint);
    let with_row_id: HintDF = force_materialize_row_id(store, hint);
    assert(hint_view(with_row_id) == with_row_id_materialized(store@, before));
    let r: HintDF = force_materialize_all(store, with_row_id);
    proof {
        let flags = with_row_id.flags();
        if !all_flags_set(flags) {
            let i = choose|i: int| 0 <= i < flags.len() && !(#[trigger] flags[i]).1;
            assert(!flags[i].1);
        }
    }
    r
}

proof fn lemma_with_flag_set(s: Seq<(FieldView, bool)>, f: FieldView)
    requires
        all_flags_set(s),
    ensures
        all_flags_set(with_flag(s, f, true)),
{
    let t = with_flag(s, f, true);
    lemma_first_index(s, flag_of(f));
    assert forall|i: int| 0 <= i < t.len() implies (#[trigger] t[i]).1 by {
        if i < s.len() {
            assert(s[i].1);
        }
    }
}

proof fn lemma_normalized_set(
    store: Map<Seq<char>, TableConstraintView>,
    s: Seq<QFieldView>,
    flags: Seq<(FieldView, bool)>,
)
    requires
        all_flags_set(flags),
    ensures
        all_flags_set(normalized_flags(store, s, flags)),
    decreases s.len(),
{
    if s.len() > 0 {
        lemma_normalized_set(store, s.drop_last(), flags);
        lemma_first_index(flags, flag_of(s.last().field));
        assert(flag_or_true(flags, s.last().field));
        lemma_with_flag_set(
            normalized_flags(store, s.drop_last(), flags),
            annotated_field(store, s.last()),
        );
    }
}

/// Every column of a table that a join reads is materialized, and no column
/// is lost.
pub proof fn joined_tables_are_materialized(
    store: Map<Seq<char>, TableConstraintView>,
    h: HintView,
)
    ensures
        all_flags_set(concrete(store, h).flags),
        concrete(store, h).schema == h.schema,
{
    let mid = with_row_id_materialized(store, h);
    if !all_flags_set(mid.flags) {
        assert forall|i: int| 0 <= i < all_set(mid.flags).len() implies (#[trigger] all_set(
            mid.flags,
        )[i]).1 by {}
        lemma_normalized_set(store, mid.schema, all_set(mid.flags));
    }
}

// ---------------------------------------------------------------------------
// The tables of a join
// ---------------------------------------------------------------------------

/// The planned tables of a join and of its checks.
#[derive(Debug)]
pub struct JoinPlanningDerivedHints {
    pub left: HintDF,
    pub right: HintDF,
    pub output: HintDF,
    pub output_left: HintDF,
    pub output_right: HintDF,
    pub src_left: HintDF,
    pub src_right: HintDF,
    pub nodup_input: HintDF,
}

/// Mathematical counterpart of [`JoinPlanningDerivedHints`].
#[verifier::ext_equal]
pub struct JoinPlansView {
    pub left: HintView,
    pub right: HintView,
    pub output: HintView,
    pub output_left: HintView,
    pub output_right: HintView,
    pub src_left: HintView,
    pub src_right: HintView,
    pub nodup_input: HintView,
}

impl JoinPlanningDerivedHints {
    /// The tables as mathematical values.
    pub open spec fn view(&self) -> JoinPlansView {
        JoinPlansView {
            left: hint_view(self.left),
            right: hint_view(self.right),
            output: hint_view(self.output),
            output_left: hint_view(self.output_left),
            output_right: hint_view(self.output_right),
            src_left: hint_view(self.src_left),
            src_right: hint_view(self.src_right),
            nodup_input: hint_view(self.nodup_input),
        }
    }

    /// Equal tables.
    pub fn copy(&self) -> (r: JoinPlanningDerivedHints)
        ensures
            r@ == self@,
    {
        JoinPlanningDerivedHints {
            left: copy_hint(&self.left),
            right: copy_hint(&self.right),
            output: copy_hint(&self.output),
            output_left: copy_hint(&self.output_left),
            output_right: copy_hint(&self.output_right),
            src_left: copy_hint(&self.src_left),
            src_right: copy_hint(&self.src_right),
            nodup_input: copy_hint(&self.nodup_input),
        }
    }
}

/// The schemas that the engine gives to the tables derived from a join.
#[derive(Debug)]
pub struct JoinFrames {
    pub output_left: DfSchema,
    pub output_right: DfSchema,
    pub src_left: DfSchema,
    pub src_right: DfSchema,
    pub nodup_input: DfSchema,
}

/// Mathematical counterpart of [`JoinFrames`].
#[verifier::ext_equal]
pub struct FramesView {
    pub output_left: Seq<QFieldView>,
    pub output_right: Seq<QFieldView>,
    pub src_left: Seq<QFieldView>,
    pub src_right: Seq<QFieldView>,
    pub nodup_input: Seq<QFieldView>,
}

impl JoinFrames {
    /// The schemas as mathematical values.
    pub open spec fn view(&self) -> FramesView {
        FramesView {
            output_left: self.output_left@,
            output_right: self.output_right@,
            src_left: self.src_left@,
            src_right: self.src_right@,
            nodup_input: self.nodup_input@,
        }
    }
}

/// The planned tables of a join. Of the derived ones only the source rows
/// and their pairs are materialized: the parts of the output are read off
/// the output.
pub open spec fn derived_plans(
    store: Map<Seq<char>, TableConstraintView>,
    left: HintView,
    right: HintView,
    output: HintView,
    frames: FramesView,
) -> JoinPlansView {
    JoinPlansView {
        left: concrete(store, left),
        right: concrete(store, right),
        output: concrete(store, output),
        output_left: HintView {
            schema: frames.output_left,
            flags: uniform_flags(store, frames.output_left, false),
        },
        output_right: HintView {
            schema: frames.output_right,
            flags: uniform_flags(store, frames.output_right, false),
        },
        src_left: HintView {
            schema: frames.src_left,
            flags: normalized_flags(
                store,
                frames.src_left,
                source_flags(frames.src_left, SRC_LEFT_COL_NAME@),
            ),
        },
        src_right: HintView {
            schema: frames.src_right,
            flags: normalized_flags(
                store,
                frames.src_right,
                source_flags(frames.src_right, SRC_RIGHT_COL_NAME@),
            ),
        },
        nodup_input: HintView {
            schema: frames.nodup_input,
            flags: normalized_flags(store, frames.nodup_input, pair_flags(frames.nodup_input)),
        },
    }
}

/// The planned tables of a join.
pub fn derive_many_to_many_hints(
    store: &Constraints,
    left: HintDF,
    right: HintDF,
    output: HintDF,
    frames: JoinFrames,
) -> (r: JoinPlanningDerivedHints)
    ensures
        r@ == derived_plans(
            store@,
            hint_view(left),
            hint_view(right),
            hint_view(output),
            frames@,
        ),
{
    JoinPlanningDerivedHints {
        left: make_concrete(store, left),
        right: make_concrete(store, right),
        output: make_concrete(store, output),
        output_left: HintDF::new_virtual(store, frames.output_left),
        output_right: HintDF::new_virtual(store, frames.output_right),
        src_left: build_source_hint(store, frames.src_left, SRC_LEFT_COL_NAME),
        src_right: build_source_hint(store, frames.src_right, SRC_RIGHT_COL_NAME),
        nodup_input: build_nodup_input_hint(store, frames.nodup_input),
    }
}

/// What is kept of the planned tables of joins.
pub struct JoinPlanningCache {
    pub plans: ScopedCache<JoinPlanningDerivedHints>,
}

/// Begins a scope in which the planned tables of joins are kept.
pub fn begin_join_planning_cache_scope(cache: &mut JoinPlanningCache)
    ensures
        final(cache).plans@ == Some(Map::<u64, JoinPlanningDerivedHints>::empty()),
{
    cache.plans.begin_scope();
}

/// Ends the scope in which the planned tables of joins are kept.
pub fn end_join_planning_cache_scope(cache: &mut JoinPlanningCache)
    ensures
        final(cache).plans@ is None,
{
    cache.plans.end_scope();
}

/// What is kept before and after the planned tables of a node were asked
/// for, and what was answered: the tables that were kept, and nothing
/// changes; or the new ones, which are then kept if a scope is open.
pub open spec fn kept_or_built(
    before: Option<Map<u64, JoinPlanningDerivedHints>>,
    after: Option<Map<u64, JoinPlanningDerivedHints>>,
    id: u64,
    answer: JoinPlansView,
    built: JoinPlansView,
) -> bool {
    match before {
        None => answer == built && after is None,
        Some(kept) => if kept.contains_key(id) {
            answer == kept[id]@ && after == before
        } else {
            &&& answer == built
            &&& after is Some
            &&& after->0.contains_key(id)
            &&& after->0[id]@ == built
            &&& after->0.remove(id) == kept
        },
    }
}

/// The planned tables of a join: those that are kept for its node, or new
/// ones, which are then kept if a scope is open.
pub fn get_or_build_many_to_many_hints(
    cache: &mut JoinPlanningCache,
    id: u64,
    store: &Constraints,
    left: HintDF,
    right: HintDF,
    output: HintDF,
    frames: JoinFrames,
) -> (r: JoinPlanningDerivedHints)
    ensures
        kept_or_built(
            old(cache).plans@,
            final(cache).plans@,
            id,
            r@,
            derived_plans(store@, hint_view(left), hint_view(right), hint_view(output), frames@),
        ),
{
    match cache.plans.get(id) {
        Some(kept) => return kept.copy(),
        None => {},
    }
    let derived: JoinPlanningDerivedHints = derive_many_to_many_hints(
        store,
        left,
        right,
        output,
        frames,
    );
    let kept: JoinPlanningDerivedHints = derived.copy();
    cache.plans.put(id, kept);
    proof {
        if let Some(before) = old(cache).plans@ {
            assert(before.insert(id, kept).remove(id) =~= before);
        }
    }
    derived
}

/// The schemas of the tables that the verifier derives from a join: those of
/// the source rows and of their pairs are fixed, those of the output's parts
/// come from the projections of the inputs.
pub fn verifier_frames(output_left: DfSchema, output_right: DfSchema) -> (r: JoinFrames)
    ensures
        r@ == (FramesView {
            output_left: output_left@,
            output_right: output_right@,
            src_left: source_shape(SRC_LEFT_COL_NAME@),
            src_right: source_shape(SRC_RIGHT_COL_NAME@),
            nodup_input: pair_shape(),
        }),
{
    JoinFrames {
        output_left,
        output_right,
        src_left: verifier_source_schema(SRC_LEFT_COL_NAME),
        src_right: verifier_source_schema(SRC_RIGHT_COL_NAME),
        nodup_input: verifier_pair_schema(),
    }
}

/// The planned tables of a join's checks, once its inputs and its output
/// are planned; nothing where one of them is not. A join of an unsupported
/// shape is refused.
pub fn initialize_gadget_plans(
    join: &Join,
    store: &Constraints,
    left: Option<HintDF>,
    right: Option<HintDF>,
    output: Option<HintDF>,
    frames: JoinFrames,
) -> (r: Result<Option<JoinPlanningDerivedHints>, JoinUnsupported>)
    ensures
        match r {
            Err(u) => unsupported(join@) == Some(u),
            Ok(plans) => unsupported(join@) is None && match (left, right, output) {
                (Some(a), Some(b), Some(c)) => plans is Some && plans->0@ == derived_plans(
                    store@,
                    hint_view(a),
                    hint_view(b),
                    hint_view(c),
                    frames@,
                ),
                _ => plans is None,
            },
        },
{
    match ensure_supported_join(join) {
        Ok(_) => {},
        Err(u) => return Err(u),
    }
    match (left, right, output) {
        (Some(a), Some(b), Some(c)) => Ok(Some(derive_many_to_many_hints(store, a, b, c, frames))),
        _ => Ok(None),
    }
}

/// The planned tables of a join's checks for the prover, who keeps them while
/// a scope is open. A join that is refused or not fully planned leaves what is
/// kept alone.
pub fn initialize_prover_gadget_plans(
    join: &Join,
    cache: &mut JoinPlanningCache,
    id: u64,
    store: &Constraints,
    left: Option<HintDF>,
    right: Option<HintDF>,
    output: Option<HintDF>,
    frames: JoinFrames,
) -> (r: Result<Option<JoinPlanningDerivedHints>, JoinUnsupported>)
    ensures
        match r {
            Err(u) => unsupported(join@) == Some(u) && final(cache).plans@ == old(cache).plans@,
            Ok(plans) => unsupported(join@) is None && match (left, right, output) {
                (Some(a), Some(b), Some(c)) => plans is Some && kept_or_built(
                    old(cache).plans@,
                    final(cache).plans@,
                    id,
                    plans->0@,
                    derived_plans(store@, hint_view(a), hint_view(b), hint_view(c), frames@),
                ),
                _ => plans is None && final(cache).plans@ == old(cache).plans@,
            },
        },
{
    match ensure_supported_join(join) {
        Ok(_) => {},
        Err(u) => return Err(u),
    }
    match (left, right, output) {
        (Some(a), Some(b), Some(c)) => Ok(
            Some(get_or_build_many_to_many_hints(cache, id, store, a, b, c, frames)),
        ),
        _ => Ok(None),
    }
}

/// While a scope is open, asking twice for the planned tables of a join gives
/// the same tables, whatever the plan has become in between.
pub proof fn kept_plans_are_given_again(
    start: Map<u64, JoinPlanningDerivedHints>,
    first: Map<u64, JoinPlanningDerivedHints>,
    second: Option<Map<u64, JoinPlanningDerivedHints>>,
    id: u64,
    answer: JoinPlansView,
    built: JoinPlansView,
    again: JoinPlansView,
    rebuilt: JoinPlansView,
)
    requires
        kept_or_built(Some(start), Some(first), id, answer, built),
        kept_or_built(Some(first), second, id, again, rebuilt),
    ensures
        again == answer,
        second == Some(first),
{
}

/// The planned tables of a join are those of their own sides: the left input
/// is planned as the left one, the part of the output that comes from the
/// right as the right one, and the source rows of a side under its name. The
/// inputs and the output are materialized, and the parts of the output are
/// not.
pub proof fn planned_tables_are_those_of_their_sides(
    store: Map<Seq<char>, TableConstraintView>,
    left: HintView,
    right: HintView,
    output: HintView,
    frames: FramesView,
)
    ensures
        ({
            let plans = derived_plans(store, left, right, output, frames);
            &&& plans.left.schema == left.schema
            &&& plans.right.schema == right.schema
            &&& plans.output.schema == output.schema
            &&& plans.output_left.schema == frames.output_left
            &&& plans.output_right.schema == frames.output_right
            &&& plans.src_left.schema == frames.src_left
            &&& plans.src_right.schema == frames.src_right
            &&& plans.nodup_input.schema == frames.nodup_input
            &&& all_flags_set(plans.left.flags)
            &&& all_flags_set(plans.right.flags)
            &&& all_flags_set(plans.output.flags)
            &&& forall|i: int|
                0 <= i < plans.output_left.flags.len() ==> !(
                #[trigger] plans.output_left.flags[i]).1
            &&& forall|i: int|
                0 <= i < plans.output_right.flags.len() ==> !(
                #[trigger] plans.output_right.flags[i]).1
        }),
{
    joined_tables_are_materialized(store, left);
    joined_tables_are_materialized(store, right);
    joined_tables_are_materialized(store, output);
    uniform_flags_agree(store, frames.output_left, false);
    uniform_flags_agree(store, frames.output_right, false);
}

/// The source rows of a side are materialized under the name of that side,
/// and of that side alone.
pub proof fn source_rows_are_planned_under_their_side(
    store: Map<Seq<char>, TableConstraintView>,
    left: HintView,
    right: HintView,
    output: HintView,
    frames: FramesView,
    i: int,
)
    requires
        annotated_are_distinct(store, frames.src_left),
        annotated_are_distinct(store, frames.src_right),
        annotated_are_distinct(store, frames.nodup_input),
    ensures
        ({
            let plans = derived_plans(store, left, right, output, frames);
            &&& 0 <= i < frames.src_left.len() ==> plans.src_left.flags[i].1
                == (frames.src_left[i].field.name == "src_left"@)
            &&& 0 <= i < frames.src_right.len() ==> plans.src_right.flags[i].1
                == (frames.src_right[i].field.name == "src_right"@)
            &&& 0 <= i < frames.nodup_input.len() ==> plans.nodup_input.flags[i].1
                == (frames.nodup_input[i].field.name != "__row_id__"@)
        }),
{
    let l = source_flags(frames.src_left, SRC_LEFT_COL_NAME@);
    let r = source_flags(frames.src_right, SRC_RIGHT_COL_NAME@);
    let p = pair_flags(frames.nodup_input);
    normalization_keeps_columns(store, frames.src_left, l);
    normalization_keeps_columns(store, frames.src_right, r);
    normalization_keeps_columns(store, frames.nodup_input, p);
    if 0 <= i < frames.src_left.len() {
        source_rows_are_materialized(frames.src_left, SRC_LEFT_COL_NAME@, i);
        assert(normalized_flags(store, frames.src_left, l)[i].1 == flag_or_true(
            l,
            frames.src_left[i].field,
        ));
    }
    if 0 <= i < frames.src_right.len() {
        source_rows_are_materialized(frames.src_right, SRC_RIGHT_COL_NAME@, i);
        assert(normalized_flags(store, frames.src_right, r)[i].1 == flag_or_true(
            r,
            frames.src_right[i].field,
        ));
    }
    if 0 <= i < frames.nodup_input.len() {
        source_rows_are_materialized(frames.nodup_input, SRC_LEFT_COL_NAME@, i);
        assert(normalized_flags(store, frames.nodup_input, p)[i].1 == flag_or_true(
            p,
            frames.nodup_input[i].field,
        ));
    }
}

/// Planned tables that are not kept are the ones that are built, and building
/// those of one join leaves what is kept of the others alone.
pub proof fn what_is_not_kept_is_built(
    before: Option<Map<u64, JoinPlanningDerivedHints>>,
    after: Option<Map<u64, JoinPlanningDerivedHints>>,
    id: u64,
    other: u64,
    answer: JoinPlansView,
    built: JoinPlansView,
)
    requires
        kept_or_built(before, after, id, answer, built),
        before matches Some(kept) ==> !kept.contains_key(id),
    ensures
        answer == built,
        before is None <==> after is None,
        before matches Some(kept) && kept.contains_key(other) ==> after->0.contains_key(other)
            && after->0[other] == before->0[other],
{
    if before is Some && before->0.contains_key(other) {
        assert(after->0.remove(id).contains_key(other));
    }
}

} // verus!
