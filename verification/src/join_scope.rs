//! Joins that can be proved, the mode they are proved in, and the planned
//! tables of their gadget.
use crate::constraints::Constraints;
use crate::df_schema::{looked_up_field, DfSchema, QFieldView, QualifiedField};
use crate::hints::{
    flag_or_true, flags_view, lemma_flag_after_set, normalized_flags, set_flag, with_flag, HintDF,
};
use crate::join_mode::JoinMode;
use crate::plan::{
    exprs_view, flat_name, pairs_view, Column, Expr, ExprView, JoinType, ScalarValue, ScalarView,
};
use crate::schema::{plain_field, DataType, Field, FieldView, TypeView};
use crate::seqs::{first_index, kept, lemma_first_index, lemma_is_first, lemma_no_first};
use crate::table::{
    activator_field, activator_field_view, is_system_column, is_system_name, row_id_field,
    row_id_field_view, ROW_ID_COL_NAME,
};
use crate::text::{decimal, decimal_text, join_text3, same_text};
use vstd::prelude::*;
use vstd::string::*;

verus! {

/// Label of the left input.
pub const LEFT_LABEL: &'static str = "__LEFT__";

/// Label of the right input.
pub const RIGHT_LABEL: &'static str = "__RIGHT__";

/// Label of the output.
pub const OUTPUT_LABEL: &'static str = "__OUTPUT__";

/// Label of the source rows of the left input.
pub const SRC_LEFT_LABEL: &'static str = "__SRC_LEFT__";

/// Label of the source rows of the right input.
pub const SRC_RIGHT_LABEL: &'static str = "__SRC_RIGHT__";

/// Name of the column of source rows of the left input.
pub const SRC_LEFT_COL_NAME: &'static str = "src_left";

/// Name of the column of source rows of the right input.
pub const SRC_RIGHT_COL_NAME: &'static str = "src_right";

/// A join: the schemas of its inputs, its key pairs, its residual filter and
/// its type.
#[derive(Debug)]
pub struct Join {
    pub left: DfSchema,
    pub right: DfSchema,
    pub on: Vec<(Expr, Expr)>,
    pub filter: Option<Expr>,
    pub join_type: JoinType,
}

/// Mathematical counterpart of [`Join`].
#[verifier::ext_equal]
pub struct JoinView {
    pub left: Seq<QFieldView>,
    pub right: Seq<QFieldView>,
    pub on: Seq<(ExprView, ExprView)>,
    pub filtered: bool,
    pub join_type: JoinType,
}

impl Join {
    /// The join as a mathematical value.
    pub open spec fn view(&self) -> JoinView {
        JoinView {
            left: self.left@,
            right: self.right@,
            on: pairs_view(self.on@),
            filtered: self.filter is Some,
            join_type: self.join_type,
        }
    }
}

/// A side of a join.
#[derive(Debug, Clone, Copy, PartialEq, Eq, Structural)]
pub enum JoinSide {
    Left,
    Right,
}

/// A join that cannot be proved.
#[derive(Debug, Clone, Copy, PartialEq, Eq, Structural)]
pub enum JoinUnsupported {
    NotInner,
    NoKeys,
    Filter,
    /// A column of an input may be null.
    NullablePayload { side: JoinSide, index: usize },
    /// A key pair is not of direct columns.
    KeyNotColumns { key: usize },
    UnresolvedLeft { key: usize },
    UnresolvedRight { key: usize },
    NullableKey { key: usize, left: bool, right: bool },
    KeyTypes { key: usize },
}

/// Satisfied by the payload columns that may be null.
pub open spec fn nullable_payload() -> spec_fn(QFieldView) -> bool {
    |q: QFieldView| !is_system_name(q.field.name) && q.field.nullable
}

/// What keeps the key pair at `i` from being proved.
pub open spec fn pair_fault(join: JoinView, i: int) -> Option<JoinUnsupported> {
    let key = i as usize;
    match join.on[i] {
        (ExprView::Column(l), ExprView::Column(r)) => match looked_up_field(join.left, l) {
            Err(_) => Some(JoinUnsupported::UnresolvedLeft { key }),
            Ok(a) => match looked_up_field(join.right, r) {
                Err(_) => Some(JoinUnsupported::UnresolvedRight { key }),
                Ok(b) => {
                    let x = join.left[a].field;
                    let y = join.right[b].field;
                    if x.nullable || y.nullable {
                        Some(
                            JoinUnsupported::NullableKey {
                                key,
                                left: x.nullable,
                                right: y.nullable,
                            },
                        )
                    } else if x.data_type != y.data_type {
                        Some(JoinUnsupported::KeyTypes { key })
                    } else {
                        None
                    }
                },
            },
        },
        _ => Some(JoinUnsupported::KeyNotColumns { key }),
    }
}

/// What is wrong with the first `n` key pairs.
pub open spec fn pairs_fault(join: JoinView, n: nat) -> Option<JoinUnsupported>
    decreases n,
{
    if n == 0 {
        None
    } else {
        match pairs_fault(join, (n - 1) as nat) {
            Some(e) => Some(e),
            None => pair_fault(join, n - 1),
        }
    }
}

/// What keeps a join from being proved: the first of these that holds. A
/// nullable column is refused even where it is no key, for a null and a zero
/// are encoded alike.
pub open spec fn unsupported(join: JoinView) -> Option<JoinUnsupported> {
    if join.join_type != JoinType::Inner {
        Some(JoinUnsupported::NotInner)
    } else if join.on.len() == 0 {
        Some(JoinUnsupported::NoKeys)
    } else if join.filtered {
        Some(JoinUnsupported::Filter)
    } else {
        match first_index(join.left, nullable_payload()) {
            Some(i) => Some(
                JoinUnsupported::NullablePayload { side: JoinSide::Left, index: i as usize },
            ),
            None => match first_index(join.right, nullable_payload()) {
                Some(i) => Some(
                    JoinUnsupported::NullablePayload { side: JoinSide::Right, index: i as usize },
                ),
                None => pairs_fault(join, join.on.len()),
            },
        }
    }
}

fn find_nullable_payload(schema: &DfSchema) -> (r: Option<usize>)
    ensures
        match r {
            Some(i) => first_index(schema@, nullable_payload()) == Some(i as int) && i
                < schema.fields@.len(),
            None => first_index(schema@, nullable_payload()) is None,
        },
{
    let ghost p = nullable_payload();
    let mut i: usize = 0;
    while i < schema.fields.len()
        invariant
            i <= schema.fields@.len(),
            p == nullable_payload(),
            forall|j: int| 0 <= j < i ==> !p(#[trigger] schema@[j]),
        decreases schema.fields@.len() - i,
    {
        assert(schema@[i as int] == schema.fields@[i as int]@);
        let field: &Field = &schema.fields[i].field;
        if !is_system_column(field.name.as_str()) && field.nullable {
            proof {
                lemma_is_first(schema@, p, i as int);
            }
            return Some(i);
        }
        i = i + 1;
    }
    proof {
        lemma_no_first(schema@, p);
    }
    None
}

fn find_pair_fault(join: &Join, i: usize) -> (r: Option<JoinUnsupported>)
    requires
        i < join.on@.len(),
    ensures
        r == pair_fault(join@, i as int),
{
    let pair: &(Expr, Expr) = &join.on[i];
    assert(join@.on[i as int] == (pair.0@, pair.1@));
    let (left, right): (&Column, &Column) = match (&pair.0, &pair.1) {
        (Expr::Column(l), Expr::Column(r)) => (l, r),
        _ => return Some(JoinUnsupported::KeyNotColumns { key: i }),
    };
    let a: usize = match join.left.look_up(left) {
        Ok(k) => k,
        Err(_) => return Some(JoinUnsupported::UnresolvedLeft { key: i }),
    };
    let b: usize = match join.right.look_up(right) {
        Ok(k) => k,
        Err(_) => return Some(JoinUnsupported::UnresolvedRight { key: i }),
    };
    assert(join@.left[a as int] == join.left.fields@[a as int]@);
    assert(join@.right[b as int] == join.right.fields@[b as int]@);
    let x: &Field = &join.left.fields[a].field;
    let y: &Field = &join.right.fields[b].field;
    if x.nullable || y.nullable {
        Some(JoinUnsupported::NullableKey { key: i, left: x.nullable, right: y.nullable })
    } else if !x.data_type.same(&y.data_type) {
        Some(JoinUnsupported::KeyTypes { key: i })
    } else {
        None
    }
}

/// The first faulty pair decides.
proof fn lemma_first_pair_fault(join: JoinView, n: nat, m: nat)
    requires
        n <= m,
        pairs_fault(join, n) is Some,
    ensures
        pairs_fault(join, m) == pairs_fault(join, n),
    decreases m,
{
    if n < m {
        lemma_first_pair_fault(join, n, (m - 1) as nat);
    }
}

/// Accepts the plain inner equijoins of columns that cannot be null, and
/// refuses every other join shape before any proof work.
pub fn ensure_supported_join(join: &Join) -> (r: Result<(), JoinUnsupported>)
    ensures
        match r {
            Ok(()) => unsupported(join@) is None,
            Err(e) => unsupported(join@) == Some(e),
        },
{
    let inner: bool = match join.join_type {
        JoinType::Inner => true,
        _ => false,
    };
    if !inner {
        return Err(JoinUnsupported::NotInner);
    }
    if join.on.len() == 0 {
        return Err(JoinUnsupported::NoKeys);
    }
    match &join.filter {
        Some(_) => return Err(JoinUnsupported::Filter),
        None => {},
    }
    match find_nullable_payload(&join.left) {
        Some(index) => return Err(
            JoinUnsupported::NullablePayload { side: JoinSide::Left, index },
        ),
        None => {},
    }
    match find_nullable_payload(&join.right) {
        Some(index) => return Err(
            JoinUnsupported::NullablePayload { side: JoinSide::Right, index },
        ),
        None => {},
    }
    let mut i: usize = 0;
    while i < join.on.len()
        invariant
            i <= join.on@.len(),
            join.on@.len() > 0,
            join@.join_type == JoinType::Inner,
            !join@.filtered,
            first_index(join@.left, nullable_payload()) is None,
            first_index(join@.right, nullable_payload()) is None,
            pairs_fault(join@, i as nat) is None,
        decreases join.on@.len() - i,
    {
        match find_pair_fault(join, i) {
            Some(e) => {
                proof {
                    lemma_first_pair_fault(join@, (i + 1) as nat, join@.on.len());
                }
                return Err(e);
            },
            None => {},
        }
        i = i + 1;
    }
    Ok(())
}

/// Every key pair of an accepted join is of direct columns that resolve, are
/// never null and have one type.
pub proof fn accepted_pairs_are_faultless(join: JoinView, i: int)
    requires
        unsupported(join) is None,
        0 <= i < join.on.len(),
    ensures
        pair_fault(join, i) is None,
        join.on[i].0 is Column,
        join.on[i].1 is Column,
{
    if pairs_fault(join, (i + 1) as nat) is Some {
        lemma_first_pair_fault(join, (i + 1) as nat, join.on.len());
    }
}

/// The text of a column reference, or `detail` where an expression is none.
pub open spec fn column_text(e: ExprView, detail: Seq<char>) -> Seq<char> {
    match e {
        ExprView::Column(c) => flat_name(c),
        _ => detail,
    }
}

/// What a join that cannot be proved is reported as. `detail` is what the
/// engine prints of a failed lookup.
pub open spec fn unsupported_message(
    e: JoinUnsupported,
    join: JoinView,
    detail: Seq<char>,
) -> Seq<char> {
    "Join proof supports only plain inner equijoins: "@ + (match e {
        JoinUnsupported::NotInner => "join type must be INNER"@,
        JoinUnsupported::NoKeys => "at least one equijoin key pair is required"@,
        JoinUnsupported::Filter => "residual join filters are not yet constrained"@,
        JoinUnsupported::NullablePayload { side, index } => (match side {
            JoinSide::Left => "left"@,
            JoinSide::Right => "right"@,
        }) + " payload column "@ + payload_name(join, side, index as int)
            + " is nullable, but NULL validity is not encoded"@,
        JoinUnsupported::KeyNotColumns { key } => "key pair "@ + decimal(key as nat)
            + " must consist of direct column references"@,
        JoinUnsupported::UnresolvedLeft { key } => "cannot resolve left key "@ + (if key
            < join.on.len() {
            column_text(join.on[key as int].0, detail)
        } else {
            detail
        }) + " at position "@ + decimal(key as nat) + ": "@ + detail,
        JoinUnsupported::UnresolvedRight { key } => "cannot resolve right key "@ + (if key
            < join.on.len() {
            column_text(join.on[key as int].1, detail)
        } else {
            detail
        }) + " at position "@ + decimal(key as nat) + ": "@ + detail,
        JoinUnsupported::NullableKey { key, left, right } => "key pair "@ + decimal(key as nat)
            + " is nullable (left="@ + truth(left) + ", right="@ + truth(right)
            + "), but NULL validity is not encoded"@,
        JoinUnsupported::KeyTypes { key } => "key pair "@ + decimal(key as nat)
            + " has different left/right encoding types"@,
    })
}

/// The name of a column of a side; nothing where there is none.
pub open spec fn payload_name(join: JoinView, side: JoinSide, index: int) -> Seq<char> {
    let s = match side {
        JoinSide::Left => join.left,
        JoinSide::Right => join.right,
    };
    if 0 <= index < s.len() {
        s[index].field.name
    } else {
        ""@
    }
}

/// A truth value as text.
pub open spec fn truth(b: bool) -> Seq<char> {
    if b {
        "true"@
    } else {
        "false"@
    }
}

fn truth_text(b: bool) -> (r: &'static str)
    ensures
        r@ == truth(b),
{
    if b {
        "true"
    } else {
        "false"
    }
}

fn payload_name_of(schema: &DfSchema, index: usize) -> (r: String)
    ensures
        r@ == (if index < schema@.len() {
            schema@[index as int].field.name
        } else {
            ""@
        }),
{
    if index < schema.fields.len() {
        schema.fields[index].field.name.clone()
    } else {
        "".to_owned()
    }
}

fn expr_column_text(e: &Expr, detail: &str) -> (r: String)
    ensures
        r@ == column_text(e@, detail@),
{
    match e {
        Expr::Column(c) => c.flat_name(),
        _ => detail.to_owned(),
    }
}

impl JoinUnsupported {
    /// What the error is reported as.
    pub fn message(&self, join: &Join, detail: &str) -> (r: String)
        ensures
            r@ == unsupported_message(*self, join@, detail@),
    {
        let mut out: String = "Join proof supports only plain inner equijoins: ".to_owned();
        let mut rest: String = "".to_owned();
        match *self {
            JoinUnsupported::NotInner => {
                rest = "join type must be INNER".to_owned();
            },
            JoinUnsupported::NoKeys => {
                rest = "at least one equijoin key pair is required".to_owned();
            },
            JoinUnsupported::Filter => {
                rest = "residual join filters are not yet constrained".to_owned();
            },
            JoinUnsupported::NullablePayload { side, index } => {
                let name: String = match side {
                    JoinSide::Left => payload_name_of(&join.left, index),
                    JoinSide::Right => payload_name_of(&join.right, index),
                };
                rest = match side {
                    JoinSide::Left => "left".to_owned(),
                    JoinSide::Right => "right".to_owned(),
                };
                rest.append(" payload column ");
                rest.append(name.as_str());
                rest.append(" is nullable, but NULL validity is not encoded");
            },
            JoinUnsupported::KeyNotColumns { key } => {
                rest = join_text3(
                    "key pair ",
                    decimal_text(key).as_str(),
                    " must consist of direct column references",
                );
            },
            JoinUnsupported::UnresolvedLeft { key } => {
                let text: String = if key < join.on.len() {
                    assert(join@.on[key as int].0 == join.on@[key as int].0@);
                    expr_column_text(&join.on[key].0, detail)
                } else {
                    detail.to_owned()
                };
                rest = join_text3("cannot resolve left key ", text.as_str(), " at position ");
                rest.append(decimal_text(key).as_str());
                rest.append(": ");
                rest.append(detail);
            },
            JoinUnsupported::UnresolvedRight { key } => {
                let text: String = if key < join.on.len() {
                    assert(join@.on[key as int].1 == join.on@[key as int].1@);
                    expr_column_text(&join.on[key].1, detail)
                } else {
                    detail.to_owned()
                };
                rest = join_text3("cannot resolve right key ", text.as_str(), " at position ");
                rest.append(decimal_text(key).as_str());
                rest.append(": ");
                rest.append(detail);
            },
            JoinUnsupported::NullableKey { key, left, right } => {
                rest = join_text3("key pair ", decimal_text(key).as_str(), " is nullable (left=");
                rest.append(truth_text(left));
                rest.append(", right=");
                rest.append(truth_text(right));
                rest.append("), but NULL validity is not encoded");
            },
            JoinUnsupported::KeyTypes { key } => {
                rest = join_text3(
                    "key pair ",
                    decimal_text(key).as_str(),
                    " has different left/right encoding types",
                );
            },
        }
        out.append(rest.as_str());
        out
    }
}

// ---------------------------------------------------------------------------
// The mode
// ---------------------------------------------------------------------------

/// The checks that a join is proved by, beside its two lookups.
#[derive(Debug, Clone, Copy, PartialEq, Eq, Structural)]
pub enum JoinCheck {
    /// The output activator is Boolean.
    Boolean,
    /// No pair of source rows occurs twice.
    NoDup,
    /// The output has as many rows as there are matching pairs, and each of
    /// them matches.
    MatchPair,
}

/// The state of a join's gadget. The join is always proved in full: the
/// other modes constrain nothing yet, and choosing one would drop the proof.
#[derive(Debug)]
pub struct JoinGadget {
    join: Join,
    mode: JoinMode,
}

impl JoinGadget {
    #[verifier::type_invariant]
    closed spec fn proved_in_full(&self) -> bool {
        self.mode == JoinMode::MANY_TO_MANY
    }

    /// The join.
    pub closed spec fn join_of(&self) -> Join {
        self.join
    }

    /// The gadget of a join, whatever mode is asked for.
    pub fn new(join: Join, _requested: JoinMode) -> (r: JoinGadget)
        ensures
            r.join_of() == join,
    {
        JoinGadget { join, mode: JoinMode::MANY_TO_MANY }
    }

    /// The join.
    pub fn join(&self) -> (r: &Join)
        ensures
            *r == self.join_of(),
    {
        &self.join
    }

    /// The mode that the join is proved in.
    pub fn join_mode(&self) -> (r: JoinMode)
        ensures
            r == JoinMode::MANY_TO_MANY,
    {
        proof {
            use_type_invariant(self);
        }
        self.mode
    }

    /// Asks for another mode; the join stays proved in full.
    pub fn set_join_mode(&mut self, _requested: JoinMode)
        ensures
            final(self).join_of() == old(self).join_of(),
    {
        self.mode = JoinMode::MANY_TO_MANY;
    }

    /// The checks of the gadget.
    pub fn checks(&self) -> (r: Vec<JoinCheck>)
        ensures
            r@ == seq![JoinCheck::Boolean, JoinCheck::NoDup, JoinCheck::MatchPair],
    {
        proof {
            use_type_invariant(self);
        }
        let mut out: Vec<JoinCheck> = Vec::new();
        match self.mode {
            JoinMode::MANY_TO_MANY => {
                out.push(JoinCheck::Boolean);
                out.push(JoinCheck::NoDup);
                out.push(JoinCheck::MatchPair);
            },
            _ => {},
        }
        assert(out@ =~= seq![JoinCheck::Boolean, JoinCheck::NoDup, JoinCheck::MatchPair]);
        out
    }
}

// ---------------------------------------------------------------------------
// Planned tables
// ---------------------------------------------------------------------------

/// Satisfied by the flags of row numbers.
pub open spec fn is_row_id_flag() -> spec_fn((FieldView, bool)) -> bool {
    |e: (FieldView, bool)| e.0.name == ROW_ID_COL_NAME@
}

/// The flags with those of row numbers set.
pub open spec fn row_ids_set(s: Seq<(FieldView, bool)>) -> Seq<(FieldView, bool)> {
    Seq::new(s.len(), |i: int| (s[i].0, s[i].1 || s[i].0.name == ROW_ID_COL_NAME@))
}

/// The flags all set.
pub open spec fn all_set(s: Seq<(FieldView, bool)>) -> Seq<(FieldView, bool)> {
    Seq::new(s.len(), |i: int| (s[i].0, true))
}

/// An output with its row number materialized, since source rows are read
/// from it; one whose first row number is materialized, or that has none,
/// stays as it is.
pub fn force_materialize_row_id(store: &Constraints, hint: HintDF) -> (r: HintDF)
    ensures
        match first_index(hint.flags(), is_row_id_flag()) {
            Some(i) if !hint.flags()[i].1 => r.schema == hint.schema && r.flags()
                == normalized_flags(store@, hint.schema@, row_ids_set(hint.flags())),
            _ => r == hint,
        },
{
    let ghost p = is_row_id_flag();
    let ghost flags = hint.flags();
    let mut found: Option<bool> = None;
    let mut i: usize = 0;
    while i < hint.should_materialize.len() && found.is_none()
        invariant
            i <= hint.should_materialize@.len(),
            flags == hint.flags(),
            p == is_row_id_flag(),
            match found {
                Some(b) => 0 < i && first_index(flags, p) == Some(i - 1) && flags[i - 1].1 == b,
                None => forall|j: int| 0 <= j < i ==> !p(#[trigger] flags[j]),
            },
        decreases hint.should_materialize@.len() - i,
    {
        assert(flags[i as int].0 == hint.should_materialize@[i as int].0@);
        if same_text(hint.should_materialize[i].0.name.as_str(), ROW_ID_COL_NAME) {
            proof {
                lemma_is_first(flags, p, i as int);
            }
            found = Some(hint.should_materialize[i].1);
        }
        i = i + 1;
    }
    proof {
        if found is None {
            lemma_no_first(flags, p);
        }
    }
    match found {
        Some(false) => {},
        _ => return hint,
    }
    let mut out: Vec<(Field, bool)> = Vec::new();
    let mut k: usize = 0;
    while k < hint.should_materialize.len()
        invariant
            k <= hint.should_materialize@.len(),
            flags == hint.flags(),
            out@.len() == k,
            forall|j: int|
                0 <= j < k ==> ((#[trigger] out@[j]).0@, out@[j].1) == row_ids_set(flags)[j],
        decreases hint.should_materialize@.len() - k,
    {
        let field: Field = hint.should_materialize[k].0.copy();
        let value: bool = hint.should_materialize[k].1 || same_text(
            field.name.as_str(),
            ROW_ID_COL_NAME,
        );
        out.push((field, value));
        k = k + 1;
    }
    assert(flags_view(out@) =~= row_ids_set(flags));
    HintDF::new(store, hint.schema, &out)
}

/// An output with every column materialized, since the join is replayed on
/// it; one that is so already stays as it is.
pub fn force_materialize_all(store: &Constraints, hint: HintDF) -> (r: HintDF)
    ensures
        (forall|i: int| 0 <= i < hint.flags().len() ==> (#[trigger] hint.flags()[i]).1) ==> r
            == hint,
        (exists|i: int| 0 <= i < hint.flags().len() && !(#[trigger] hint.flags()[i]).1) ==> r.schema
            == hint.schema && r.flags() == normalized_flags(
            store@,
            hint.schema@,
            all_set(hint.flags()),
        ),
{
    let ghost flags = hint.flags();
    let mut complete: bool = true;
    let mut out: Vec<(Field, bool)> = Vec::new();
    let mut i: usize = 0;
    while i < hint.should_materialize.len()
        invariant
            i <= hint.should_materialize@.len(),
            flags == hint.flags(),
            complete ==> forall|j: int| 0 <= j < i ==> (#[trigger] flags[j]).1,
            !complete ==> exists|j: int| 0 <= j < i && !(#[trigger] flags[j]).1,
            out@.len() == i,
            forall|j: int| 0 <= j < i ==> ((#[trigger] out@[j]).0@, out@[j].1) == all_set(flags)[j],
        decreases hint.should_materialize@.len() - i,
    {
        assert(flags[i as int].1 == hint.should_materialize@[i as int].1);
        if !hint.should_materialize[i].1 {
            complete = false;
        }
        out.push((hint.should_materialize[i].0.copy(), true));
        i = i + 1;
    }
    assert(flags_view(out@) =~= all_set(flags));
    if complete {
        return hint;
    }
    HintDF::new(store, hint.schema, &out)
}

/// A field without a qualifier.
pub open spec fn unqualified_field(f: FieldView) -> QFieldView {
    QFieldView { qualifier: None, field: f }
}

/// The shape of the table of source rows of a side.
pub open spec fn source_shape(name: Seq<char>) -> Seq<QFieldView> {
    seq![
        unqualified_field(plain_field(name, TypeView::Int64, false)),
        unqualified_field(activator_field_view()),
        unqualified_field(row_id_field_view()),
    ]
}

/// The shape of the table of pairs of source rows.
pub open spec fn pair_shape() -> Seq<QFieldView> {
    seq![
        unqualified_field(plain_field(SRC_LEFT_COL_NAME@, TypeView::Int64, false)),
        unqualified_field(plain_field(SRC_RIGHT_COL_NAME@, TypeView::Int64, false)),
        unqualified_field(activator_field_view()),
        unqualified_field(row_id_field_view()),
    ]
}

/// The flags of a table of source rows: only the source rows themselves are
/// materialized.
pub open spec fn source_flags(s: Seq<QFieldView>, name: Seq<char>) -> Seq<(FieldView, bool)>
    decreases s.len(),
{
    if s.len() == 0 {
        Seq::empty()
    } else {
        with_flag(
            source_flags(s.drop_last(), name),
            s.last().field,
            s.last().field.name == name,
        )
    }
}

/// The flags of a table of pairs: everything but the row number is
/// materialized.
pub open spec fn pair_flags(s: Seq<QFieldView>) -> Seq<(FieldView, bool)>
    decreases s.len(),
{
    if s.len() == 0 {
        Seq::empty()
    } else {
        with_flag(
            pair_flags(s.drop_last()),
            s.last().field,
            s.last().field.name != ROW_ID_COL_NAME@,
        )
    }
}

/// The planned table of source rows of a side.
pub fn build_source_hint(store: &Constraints, schema: DfSchema, name: &str) -> (r: HintDF)
    ensures
        r.schema == schema,
        r.flags() == normalized_flags(store@, schema@, source_flags(schema@, name@)),
{
    let mut flags: Vec<(Field, bool)> = Vec::new();
    let mut i: usize = 0;
    assert(schema@.take(0) =~= Seq::<QFieldView>::empty());
    assert(flags_view(flags@) =~= Seq::<(FieldView, bool)>::empty());
    while i < schema.fields.len()
        invariant
            i <= schema.fields@.len(),
            flags_view(flags@) == source_flags(schema@.take(i as int), name@),
        decreases schema.fields@.len() - i,
    {
        proof {
            assert(schema@.take(i + 1).drop_last() =~= schema@.take(i as int));
            assert(schema@.take(i + 1).last() == schema.fields@[i as int]@);
        }
        let field: Field = schema.fields[i].field.copy();
        let value: bool = same_text(field.name.as_str(), name);
        set_flag(&mut flags, field, value);
        i = i + 1;
    }
    assert(schema@.take(schema@.len() as int) =~= schema@);
    HintDF::new(store, schema, &flags)
}

/// The planned table of pairs of source rows.
pub fn build_nodup_input_hint(store: &Constraints, schema: DfSchema) -> (r: HintDF)
    ensures
        r.schema == schema,
        r.flags() == normalized_flags(store@, schema@, pair_flags(schema@)),
{
    let mut flags: Vec<(Field, bool)> = Vec::new();
    let mut i: usize = 0;
    assert(schema@.take(0) =~= Seq::<QFieldView>::empty());
    assert(flags_view(flags@) =~= Seq::<(FieldView, bool)>::empty());
    while i < schema.fields.len()
        invariant
            i <= schema.fields@.len(),
            flags_view(flags@) == pair_flags(schema@.take(i as int)),
        decreases schema.fields@.len() - i,
    {
        proof {
            assert(schema@.take(i + 1).drop_last() =~= schema@.take(i as int));
            assert(schema@.take(i + 1).last() == schema.fields@[i as int]@);
        }
        let field: Field = schema.fields[i].field.copy();
        let value: bool = !same_text(field.name.as_str(), ROW_ID_COL_NAME);
        set_flag(&mut flags, field, value);
        i = i + 1;
    }
    assert(schema@.take(schema@.len() as int) =~= schema@);
    HintDF::new(store, schema, &flags)
}

fn plain_entry(field: Field) -> (r: QualifiedField)
    ensures
        r@ == unqualified_field(field@),
{
    QualifiedField { qualifier: None, field }
}

/// The verifier's planned table of source rows of a side.
pub fn verifier_source_schema(name: &str) -> (r: DfSchema)
    ensures
        r@ == source_shape(name@),
{
    let mut fields: Vec<QualifiedField> = Vec::new();
    fields.push(plain_entry(Field::new(name, DataType::Int64, false)));
    fields.push(plain_entry(activator_field()));
    fields.push(plain_entry(row_id_field()));
    let r = DfSchema { fields };
    assert(r@ =~= source_shape(name@));
    r
}

/// The verifier's planned table of pairs of source rows.
pub fn verifier_pair_schema() -> (r: DfSchema)
    ensures
        r@ == pair_shape(),
{
    let mut fields: Vec<QualifiedField> = Vec::new();
    fields.push(plain_entry(Field::new(SRC_LEFT_COL_NAME, DataType::Int64, false)));
    fields.push(plain_entry(Field::new(SRC_RIGHT_COL_NAME, DataType::Int64, false)));
    fields.push(plain_entry(activator_field()));
    fields.push(plain_entry(row_id_field()));
    let r = DfSchema { fields };
    assert(r@ =~= pair_shape());
    r
}

/// The verifier's projection of an input onto its part of the output: every
/// column but the row number, and a zero in place of the source row.
pub fn verifier_output_side_exprs(base: &DfSchema, name: &str) -> (r: Vec<Expr>)
    ensures
        exprs_view(r@) == kept(base@, crate::sort::column_but_row_id()).push(
            ExprView::Alias {
                expr: Box::new(ExprView::Literal(ScalarView::Int64(Some(0)))),
                relation: None,
                name: name@,
            },
        ),
{
    let mut exprs: Vec<Expr> = crate::sort::output_exprs(base);
    let ghost before = exprs_view(exprs@);
    let e = Expr::Alias {
        expr: Box::new(Expr::Literal(ScalarValue::Int64(Some(0)))),
        relation: None,
        name: name.to_owned(),
    };
    proof {
        reveal_with_fuel(Expr::view, 2);
    }
    exprs.push(e);
    assert(exprs_view(exprs@) =~= before.push(e@));
    exprs
}

/// Whether a key pair can be proved: two columns that resolve to non-null fields
/// of one type, each on its own side.
pub open spec fn provable_pair(join: JoinView, pair: (ExprView, ExprView)) -> bool {
    pair.0 matches ExprView::Column(l) && pair.1 matches ExprView::Column(r) && looked_up_field(
        join.left,
        l,
    ) matches Ok(a) && looked_up_field(join.right, r) matches Ok(b) && {
        &&& !join.left[a].field.nullable
        &&& !join.right[b].field.nullable
        &&& join.left[a].field.data_type == join.right[b].field.data_type
    }
}

/// A join is supported exactly when it is a plain inner join by at least one
/// key pair, without a filter, over inputs whose data is never null, and every
/// key pair can be proved.
pub proof fn supported_joins_are_plain_inner_equijoins(join: JoinView)
    ensures
        unsupported(join) is None <==> {
            &&& join.join_type == JoinType::Inner
            &&& join.on.len() > 0
            &&& !join.filtered
            &&& forall|i: int|
                0 <= i < join.left.len() ==> (#[trigger] join.left[i]).field.name
                    == "__activator__"@ || join.left[i].field.name == "__row_id__"@
                    || !join.left[i].field.nullable
            &&& forall|i: int|
                0 <= i < join.right.len() ==> (#[trigger] join.right[i]).field.name
                    == "__activator__"@ || join.right[i].field.name == "__row_id__"@
                    || !join.right[i].field.nullable
            &&& forall|i: int|
                0 <= i < join.on.len() ==> provable_pair(join, #[trigger] join.on[i])
        },
{
    let p = nullable_payload();
    lemma_first_index(join.left, p);
    lemma_first_index(join.right, p);
    if unsupported(join) is None {
        assert forall|i: int| 0 <= i < join.left.len() implies (#[trigger] join.left[i]).field.name
            == "__activator__"@ || join.left[i].field.name == "__row_id__"@
            || !join.left[i].field.nullable by {
            assert(!p(join.left[i]));
        }
        assert forall|i: int| 0 <= i < join.right.len() implies (
        #[trigger] join.right[i]).field.name == "__activator__"@ || join.right[i].field.name
            == "__row_id__"@ || !join.right[i].field.nullable by {
            assert(!p(join.right[i]));
        }
        assert forall|i: int| 0 <= i < join.on.len() implies provable_pair(
            join,
            #[trigger] join.on[i],
        ) by {
            accepted_pairs_are_faultless(join, i);
        }
    }
    if forall|i: int| 0 <= i < join.on.len() ==> provable_pair(join, #[trigger] join.on[i]) {
        lemma_no_pair_fault(join, join.on.len());
    }
    match first_index(join.left, p) {
        Some(i) => assert(p(join.left[i])),
        None => {},
    }
    match first_index(join.right, p) {
        Some(i) => assert(p(join.right[i])),
        None => {},
    }
}

proof fn lemma_no_pair_fault(join: JoinView, n: nat)
    requires
        n <= join.on.len(),
        forall|i: int| 0 <= i < join.on.len() ==> provable_pair(join, #[trigger] join.on[i]),
    ensures
        pairs_fault(join, n) is None,
    decreases n,
{
    if n > 0 {
        lemma_no_pair_fault(join, (n - 1) as nat);
        assert(provable_pair(join, join.on[n - 1]));
    }
}

/// Of a table of source rows only the source rows are materialized. Of a
/// table of pairs of them everything but the row number is.
pub proof fn source_rows_are_materialized(s: Seq<QFieldView>, name: Seq<char>, i: int)
    requires
        0 <= i < s.len(),
    ensures
        flag_or_true(source_flags(s, name), s[i].field) == (s[i].field.name == name),
        flag_or_true(pair_flags(s), s[i].field) == (s[i].field.name != "__row_id__"@),
    decreases s.len(),
{
    let t = s.drop_last();
    let f = s.last().field;
    lemma_flag_after_set(source_flags(t, name), f, f.name == name, s[i].field);
    lemma_flag_after_set(pair_flags(t), f, f.name != ROW_ID_COL_NAME@, s[i].field);
    if i < t.len() {
        assert(s[i] == t[i]);
        source_rows_are_materialized(t, name, i);
    }
}

/// A table of source rows holds the source rows as whole numbers, an activator
/// and row numbers. A table of pairs holds the source rows of the left side,
/// and then those of the right.
pub proof fn pairs_hold_the_left_rows_first(name: Seq<char>)
    ensures
        source_shape(name).len() == 3,
        source_shape(name)[0].field.name == name,
        source_shape(name)[0].field.data_type == TypeView::Int64,
        source_shape(name)[1].field.name == "__activator__"@,
        source_shape(name)[2].field.name == "__row_id__"@,
        pair_shape().len() == 4,
        pair_shape()[0].field == source_shape("src_left"@)[0].field,
        pair_shape()[1].field == source_shape("src_right"@)[0].field,
        pair_shape()[2].field.name == "__activator__"@,
        pair_shape()[3].field.name == "__row_id__"@,
        forall|i: int| 0 <= i < 3 ==> (#[trigger] source_shape(name)[i]).qualifier is None,
        forall|i: int| 0 <= i < 4 ==> (#[trigger] pair_shape()[i]).qualifier is None,
{
}

/// Setting the flags of row numbers sets those and no other; setting all
/// flags leaves none unset. Neither touches a column.
pub proof fn setting_flags_keeps_columns(s: Seq<(FieldView, bool)>, i: int)
    requires
        0 <= i < s.len(),
    ensures
        row_ids_set(s).len() == s.len(),
        row_ids_set(s)[i].0 == s[i].0,
        s[i].0.name == "__row_id__"@ ==> row_ids_set(s)[i].1,
        s[i].0.name != "__row_id__"@ ==> row_ids_set(s)[i].1 == s[i].1,
        all_set(s).len() == s.len(),
        all_set(s)[i].0 == s[i].0,
        all_set(s)[i].1,
{
}

/// Whether a refusal holds of the key pair at `i`: that it is not of columns,
/// which of the two does not resolve, which may be null, or that their types
/// differ.
pub open spec fn is_fault_of(join: JoinView, u: JoinUnsupported, i: int) -> bool {
    let l = join.on[i].0;
    let r = join.on[i].1;
    let x = looked_up_field(join.left, l->Column_0);
    let y = looked_up_field(join.right, r->Column_0);
    match u {
        JoinUnsupported::KeyNotColumns { key } => key == i && !(l is Column && r is Column),
        JoinUnsupported::UnresolvedLeft { key } => key == i && l is Column && x is Err,
        JoinUnsupported::UnresolvedRight { key } => key == i && r is Column && y is Err,
        JoinUnsupported::NullableKey { key, left, right } => key == i && x is Ok && y is Ok && left
            == join.left[x->Ok_0].field.nullable && right == join.right[y->Ok_0].field.nullable && (
        left || right),
        JoinUnsupported::KeyTypes { key } => key == i && x is Ok && y is Ok
            && join.left[x->Ok_0].field.data_type != join.right[y->Ok_0].field.data_type,
        _ => false,
    }
}

proof fn lemma_pair_faults(join: JoinView, n: nat)
    requires
        n <= join.on.len() <= usize::MAX,
    ensures
        pairs_fault(join, n) matches Some(u) ==> exists|i: int|
            0 <= i < n && #[trigger] is_fault_of(join, u, i),
    decreases n,
{
    if n > 0 {
        lemma_pair_faults(join, (n - 1) as nat);
        match pairs_fault(join, (n - 1) as nat) {
            Some(u) => {
                let i = choose|i: int| 0 <= i < n - 1 && #[trigger] is_fault_of(join, u, i);
                assert(is_fault_of(join, u, i));
            },
            None => match pair_fault(join, n - 1) {
                Some(u) => {
                    assert(is_fault_of(join, u, n - 1));
                },
                None => {},
            },
        }
    }
}

/// A join is refused for a reason that holds of it, and of the side and the
/// key pair that the refusal names.
pub proof fn joins_are_refused_for_what_holds(join: JoinView, u: JoinUnsupported)
    requires
        unsupported(join) == Some(u),
        join.on.len() <= usize::MAX,
        join.left.len() <= usize::MAX,
        join.right.len() <= usize::MAX,
    ensures
        u is NotInner <==> join.join_type != JoinType::Inner,
        u is NoKeys ==> join.on.len() == 0,
        u is Filter ==> join.filtered,
        u matches JoinUnsupported::NullablePayload { side, index } ==> {
            let fields = match side {
                JoinSide::Left => join.left,
                JoinSide::Right => join.right,
            };
            &&& index < fields.len()
            &&& fields[index as int].field.nullable
            &&& fields[index as int].field.name != "__activator__"@
            &&& fields[index as int].field.name != "__row_id__"@
        },
        !(u is NotInner || u is NoKeys || u is Filter || u is NullablePayload) ==> exists|i: int|
            0 <= i < join.on.len() && #[trigger] is_fault_of(join, u, i),
{
    lemma_first_index(join.left, nullable_payload());
    lemma_first_index(join.right, nullable_payload());
    lemma_pair_faults(join, join.on.len());
}

} // verus!
