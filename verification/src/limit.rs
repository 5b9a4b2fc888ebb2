//! `LIMIT`: which rows survive, and the claims that bind their number.
//!
//! The output is a physical prefix of the input. The claims say that the
//! input activator is Boolean, that the output activator sums to a committed
//! count, and, where the count stays below the fetch, that no input row was
//! left out. Together they leave one possible count: the smaller of the fetch
//! and the number of active input rows.
use crate::aggregate::{data_indices, is_data, table_opt};
use crate::claims::{
    boolean_claim, boolean_claim_is_boolean, boolean_sum_counts, boolean_values_pass, equal_claim,
    equal_claim_is_equal, equal_columns_pass, field_modulus, is_boolean, ones, prefix_ones,
    residues, same_ones_same_column, sum_claim, sum_claim_counts,
};
use crate::field_bytes::{checked_pow2, le_to_usize, le_value};
use crate::plan::{Expr, ExprView, ScalarValue, ScalarView, Schema, SchemaView};
use crate::schema::{fields_view, plain_field, Field, FieldView};
use crate::seqs::{indices_where, ints};
use crate::table::{
    activator_field, activator_field_view, cols_insert, cols_view, find_name, insert_col,
    lemma_field_index, lemma_name_index, name_index, poly_named, ColView, Poly, SideView, Table,
    TableView, TrackedColumn, ACTIVATOR_COL_NAME,
};
use crate::text::{decimal, join_text, signed_decimal, wide_decimal_text};
use vstd::arithmetic::power2::pow2;
use vstd::prelude::*;
use vstd::string::*;

verus! {

/// Label of the input activator in the payload of the gadget.
pub const INPUT_ACTIVATOR_LABEL: &'static str = "__input_activator__";

/// Label of the output activator in the payload of the gadget.
pub const OUTPUT_ACTIVATOR_LABEL: &'static str = "__output_activator__";

/// Why a `LIMIT` was refused.
#[derive(Debug, Clone, Copy, PartialEq, Eq, Structural)]
pub enum LimitError {
    /// Rows are to be skipped.
    Offset(u64),
    /// The offset is no literal.
    OffsetNotLiteral,
    /// The offset is negative.
    OffsetNegative(i64),
    PayloadMissing,
    InputMissing,
    OutputMissing,
    DimensionsDiffer,
    InputColumns,
    OutputColumns,
    CountHasVariables,
    CountNotScalar,
    CapacityNotUsize,
    CapacityNotBelowModulus,
    NotUsize,
    CountExceedsCapacity,
    CountExceedsFetch,
    FetchNotLiteral,
    InputNotBoolean,
    CountIncorrect,
    OmittedRow,
    PrefixNotScalar,
    PrefixHasVariables,
    PrefixExceedsCapacity,
}

/// The text of a refusal.
pub open spec fn limit_message(e: LimitError) -> Seq<char> {
    match e {
        LimitError::Offset(n) => "LIMIT offset is unsupported (skip="@ + decimal(n as nat) + ")"@,
        LimitError::OffsetNotLiteral => "LIMIT offset must be a nonnegative literal"@,
        LimitError::OffsetNegative(n) =>
        "LIMIT offset could not be parsed: Error during planning: OFFSET must be >=0, '"@
            + signed_decimal(n as int) + "' was provided"@,
        LimitError::PayloadMissing => "LIMIT gadget payload is missing"@,
        LimitError::InputMissing => "LIMIT input activator is missing"@,
        LimitError::OutputMissing => "LIMIT output activator is missing"@,
        LimitError::DimensionsDiffer => "LIMIT activator dimensions differ"@,
        LimitError::InputColumns => "LIMIT expects one input activator column"@,
        LimitError::OutputColumns => "LIMIT expects one output activator column"@,
        LimitError::CountHasVariables => "LIMIT output count committed scalar has variables"@,
        LimitError::CountNotScalar => "LIMIT output count is not a committed scalar"@,
        LimitError::CapacityNotUsize => "LIMIT input capacity does not fit into usize"@,
        LimitError::CapacityNotBelowModulus =>
        "LIMIT input capacity must be below the field modulus"@,
        LimitError::NotUsize => "LIMIT count or prefix does not fit into usize"@,
        LimitError::CountExceedsCapacity => "LIMIT output count exceeds the input capacity"@,
        LimitError::CountExceedsFetch => "LIMIT output count exceeds the public fetch"@,
        LimitError::FetchNotLiteral => "LIMIT fetch must be a nonnegative literal"@,
        LimitError::InputNotBoolean => "LIMIT input activator is not Boolean"@,
        LimitError::CountIncorrect => "LIMIT output count is incorrect"@,
        LimitError::OmittedRow => "LIMIT omitted an input row"@,
        LimitError::PrefixNotScalar => "LIMIT prefix is not a committed scalar"@,
        LimitError::PrefixHasVariables => "LIMIT prefix committed scalar has variables"@,
        LimitError::PrefixExceedsCapacity => "LIMIT prefix exceeds the input capacity"@,
    }
}

fn signed_text(n: i64) -> (r: String)
    ensures
        r@ == signed_decimal(n as int),
{
    if n < 0 {
        let magnitude: u64 = if n == i64::MIN {
            0x8000_0000_0000_0000
        } else {
            (-n) as u64
        };
        let digits: String = wide_decimal_text(magnitude as u128);
        join_text("-", digits.as_str())
    } else {
        wide_decimal_text(n as u128)
    }
}

impl LimitError {
    /// The text of this refusal.
    pub fn message(&self) -> (r: String)
        ensures
            r@ == limit_message(*self),
    {
        match self {
            LimitError::Offset(n) => {
                let digits: String = wide_decimal_text(*n as u128);
                let mut out: String = join_text(
                    "LIMIT offset is unsupported (skip=",
                    digits.as_str(),
                );
                out.append(")");
                out
            },
            LimitError::OffsetNotLiteral => "LIMIT offset must be a nonnegative literal".to_owned(),
            LimitError::OffsetNegative(n) => {
                let digits: String = signed_text(*n);
                let mut out: String = join_text(
                    "LIMIT offset could not be parsed: Error during planning: OFFSET must be >=0, '",
                    digits.as_str(),
                );
                out.append("' was provided");
                out
            },
            LimitError::PayloadMissing => "LIMIT gadget payload is missing".to_owned(),
            LimitError::InputMissing => "LIMIT input activator is missing".to_owned(),
            LimitError::OutputMissing => "LIMIT output activator is missing".to_owned(),
            LimitError::DimensionsDiffer => "LIMIT activator dimensions differ".to_owned(),
            LimitError::InputColumns => "LIMIT expects one input activator column".to_owned(),
            LimitError::OutputColumns => "LIMIT expects one output activator column".to_owned(),
            LimitError::CountHasVariables =>
            "LIMIT output count committed scalar has variables".to_owned(),
            LimitError::CountNotScalar => "LIMIT output count is not a committed scalar".to_owned(),
            LimitError::CapacityNotUsize =>
            "LIMIT input capacity does not fit into usize".to_owned(),
            LimitError::CapacityNotBelowModulus =>
            "LIMIT input capacity must be below the field modulus".to_owned(),
            LimitError::NotUsize => "LIMIT count or prefix does not fit into usize".to_owned(),
            LimitError::CountExceedsCapacity =>
            "LIMIT output count exceeds the input capacity".to_owned(),
            LimitError::CountExceedsFetch =>
            "LIMIT output count exceeds the public fetch".to_owned(),
            LimitError::FetchNotLiteral => "LIMIT fetch must be a nonnegative literal".to_owned(),
            LimitError::InputNotBoolean => "LIMIT input activator is not Boolean".to_owned(),
            LimitError::CountIncorrect => "LIMIT output count is incorrect".to_owned(),
            LimitError::OmittedRow => "LIMIT omitted an input row".to_owned(),
            LimitError::PrefixNotScalar => "LIMIT prefix is not a committed scalar".to_owned(),
            LimitError::PrefixHasVariables =>
            "LIMIT prefix committed scalar has variables".to_owned(),
            LimitError::PrefixExceedsCapacity =>
            "LIMIT prefix exceeds the input capacity".to_owned(),
        }
    }
}

// ---------------------------------------------------------------------------
// Skip and fetch
// ---------------------------------------------------------------------------

/// The number of rows that a plan skips.
#[derive(Debug, Clone, Copy, PartialEq, Eq, Structural)]
pub enum SkipType {
    Literal(u64),
    UnsupportedExpr,
    Negative(i64),
}

/// The number of rows that a plan fetches, if it says so.
#[derive(Debug, Clone, Copy, PartialEq, Eq, Structural)]
pub enum FetchType {
    Literal(Option<u64>),
    UnsupportedExpr,
    Negative(i64),
}

/// What an optional skip expression means; a null skips nothing.
pub open spec fn skip_type(skip: Option<ExprView>) -> SkipType {
    match skip {
        None => SkipType::Literal(0),
        Some(ExprView::Literal(ScalarView::Int64(None))) => SkipType::Literal(0),
        Some(ExprView::Literal(ScalarView::Int64(Some(s)))) => if s >= 0 {
            SkipType::Literal(s as u64)
        } else {
            SkipType::Negative(s)
        },
        Some(_) => SkipType::UnsupportedExpr,
    }
}

/// What an optional fetch expression means; a null fetches everything.
pub open spec fn fetch_type(fetch: Option<ExprView>) -> FetchType {
    match fetch {
        None => FetchType::Literal(None),
        Some(ExprView::Literal(ScalarView::Int64(None))) => FetchType::Literal(None),
        Some(ExprView::Literal(ScalarView::Int64(Some(s)))) => if s >= 0 {
            FetchType::Literal(Some(s as u64))
        } else {
            FetchType::Negative(s)
        },
        Some(_) => FetchType::UnsupportedExpr,
    }
}

/// The view of an optional boxed expression.
pub open spec fn boxed_view(e: Option<Box<Expr>>) -> Option<ExprView> {
    match e {
        Some(x) => Some(x@),
        None => None,
    }
}

/// What an optional skip expression means.
pub fn get_skip_type(skip: &Option<Box<Expr>>) -> (r: SkipType)
    ensures
        r == skip_type(boxed_view(*skip)),
{
    match skip {
        None => SkipType::Literal(0),
        Some(e) => match &**e {
            Expr::Literal(ScalarValue::Int64(None)) => SkipType::Literal(0),
            Expr::Literal(ScalarValue::Int64(Some(s))) => {
                if *s >= 0 {
                    SkipType::Literal(*s as u64)
                } else {
                    SkipType::Negative(*s)
                }
            },
            _ => SkipType::UnsupportedExpr,
        },
    }
}

/// What an optional fetch expression means.
pub fn get_fetch_type(fetch: &Option<Box<Expr>>) -> (r: FetchType)
    ensures
        r == fetch_type(boxed_view(*fetch)),
{
    match fetch {
        None => FetchType::Literal(None),
        Some(e) => match &**e {
            Expr::Literal(ScalarValue::Int64(None)) => FetchType::Literal(None),
            Expr::Literal(ScalarValue::Int64(Some(s))) => {
                if *s >= 0 {
                    FetchType::Literal(Some(*s as u64))
                } else {
                    FetchType::Negative(*s)
                }
            },
            _ => FetchType::UnsupportedExpr,
        },
    }
}

/// The number of rows to fetch, where a literal gives it.
pub open spec fn fetch_literal(fetch: Option<ExprView>) -> Option<u64> {
    match fetch_type(fetch) {
        FetchType::Literal(Some(n)) => Some(n),
        _ => None,
    }
}

/// The number of rows to fetch, where a literal gives it.
pub fn fetch_limit_literal(fetch: &Option<Box<Expr>>) -> (r: Option<u64>)
    ensures
        r == fetch_literal(boxed_view(*fetch)),
{
    match get_fetch_type(fetch) {
        FetchType::Literal(Some(n)) => Some(n),
        _ => None,
    }
}

/// Whether nothing is skipped, or why the skip is refused.
pub open spec fn skip_outcome(skip: Option<ExprView>) -> Result<(), LimitError> {
    match skip_type(skip) {
        SkipType::Literal(n) => if n == 0 {
            Ok(())
        } else {
            Err(LimitError::Offset(n))
        },
        SkipType::UnsupportedExpr => Err(LimitError::OffsetNotLiteral),
        SkipType::Negative(n) => Err(LimitError::OffsetNegative(n)),
    }
}

/// Accepts only plans that skip nothing.
pub fn ensure_no_skip(skip: &Option<Box<Expr>>) -> (r: Result<(), LimitError>)
    ensures
        r == skip_outcome(boxed_view(*skip)),
{
    match get_skip_type(skip) {
        SkipType::Literal(n) => {
            if n == 0 {
                Ok(())
            } else {
                Err(LimitError::Offset(n))
            }
        },
        SkipType::UnsupportedExpr => Err(LimitError::OffsetNotLiteral),
        SkipType::Negative(n) => Err(LimitError::OffsetNegative(n)),
    }
}

/// The skip as it shows in the description of a plan.
pub open spec fn skip_label(s: SkipType) -> Seq<char> {
    match s {
        SkipType::Literal(n) => decimal(n as nat),
        SkipType::UnsupportedExpr => "<expr>"@,
        SkipType::Negative(n) => "err:Error during planning: OFFSET must be >=0, '"@
            + signed_decimal(n as int) + "' was provided"@,
    }
}

/// The fetch as it shows in the description of a plan.
pub open spec fn fetch_label(f: FetchType) -> Seq<char> {
    match f {
        FetchType::Literal(Some(n)) => decimal(n as nat),
        FetchType::Literal(None) => "none"@,
        FetchType::UnsupportedExpr => "<expr>"@,
        FetchType::Negative(n) => "err:Error during planning: LIMIT must be >= 0, '"@
            + signed_decimal(n as int) + "' was provided"@,
    }
}

/// Describes a `LIMIT` node.
pub fn display(input_name: &str, skip: &Option<Box<Expr>>, fetch: &Option<Box<Expr>>) -> (r: String)
    ensures
        r@ == "Limit\nInput: "@ + input_name@ + ", skip: "@ + skip_label(
            skip_type(boxed_view(*skip)),
        ) + ", fetch: "@ + fetch_label(fetch_type(boxed_view(*fetch))),
{
    let skip_text: String = match get_skip_type(skip) {
        SkipType::Literal(n) => wide_decimal_text(n as u128),
        SkipType::UnsupportedExpr => "<expr>".to_owned(),
        SkipType::Negative(n) => {
            let digits: String = signed_text(n);
            let mut t: String = join_text(
                "err:Error during planning: OFFSET must be >=0, '",
                digits.as_str(),
            );
            t.append("' was provided");
            t
        },
    };
    let fetch_text: String = match get_fetch_type(fetch) {
        FetchType::Literal(Some(n)) => wide_decimal_text(n as u128),
        FetchType::Literal(None) => "none".to_owned(),
        FetchType::UnsupportedExpr => "<expr>".to_owned(),
        FetchType::Negative(n) => {
            let digits: String = signed_text(n);
            let mut t: String = join_text(
                "err:Error during planning: LIMIT must be >= 0, '",
                digits.as_str(),
            );
            t.append("' was provided");
            t
        },
    };
    let mut out: String = join_text("Limit\nInput: ", input_name);
    out.append(", skip: ");
    out.append(skip_text.as_str());
    out.append(", fetch: ");
    out.append(fetch_text.as_str());
    out
}

// ---------------------------------------------------------------------------
// The prefix
// ---------------------------------------------------------------------------

/// The number of rows of a domain, when counts of its rows cannot wrap in the
/// field.
pub open spec fn capacity_outcome(log_size: nat, modulus: nat) -> Result<nat, LimitError> {
    if pow2(log_size) > usize::MAX {
        Err(LimitError::CapacityNotUsize)
    } else if pow2(log_size) >= modulus {
        Err(LimitError::CapacityNotBelowModulus)
    } else {
        Ok(pow2(log_size))
    }
}

/// The number of rows of a domain. A Boolean column's sum is the number of its
/// ones only below the field modulus, which is given by its little-endian
/// bytes.
pub fn checked_capacity(log_size: usize, modulus: &Vec<u8>) -> (r: Result<usize, LimitError>)
    ensures
        match r {
            Ok(c) => capacity_outcome(log_size as nat, le_value(modulus@)) == Ok::<nat, LimitError>(
                c as nat,
            ),
            Err(e) => capacity_outcome(log_size as nat, le_value(modulus@)) == Err::<
                nat,
                LimitError,
            >(e),
        },
{
    let capacity: usize = match checked_pow2(log_size) {
        Some(c) => c,
        None => return Err(LimitError::CapacityNotUsize),
    };
    match le_to_usize(modulus) {
        Some(m) => {
            if capacity >= m {
                return Err(LimitError::CapacityNotBelowModulus);
            }
        },
        None => {},
    }
    Ok(capacity)
}

/// How many of the flags are set.
pub open spec fn count_true(s: Seq<bool>) -> nat
    decreases s.len(),
{
    if s.len() == 0 {
        0
    } else {
        count_true(s.drop_last()) + (if s.last() {
            1nat
        } else {
            0nat
        })
    }
}

/// Whether `r` is the length of the physical prefix that holds the rows to
/// fetch: all rows without a fetch, else the fewest that hold `fetch` active
/// rows, and all rows where there are not so many.
pub open spec fn is_prefix(active: Seq<bool>, fetch: Option<u64>, table_size: nat, r: nat) -> bool {
    match fetch {
        None => r == table_size,
        Some(n) => if count_true(active) >= n {
            &&& r <= active.len()
            &&& count_true(active.take(r as int)) == n
            &&& forall|j: int| 0 <= j < r ==> count_true(#[trigger] active.take(j)) < n
        } else {
            r == table_size
        },
    }
}

/// Length of the physical prefix that holds the rows to fetch.
pub fn contig_s_from_fetch(active: &Vec<bool>, fetch: Option<u64>, table_size: usize) -> (r: usize)
    ensures
        is_prefix(active@, fetch, table_size as nat, r as nat),
{
    let limit: u64 = match fetch {
        None => return table_size,
        Some(n) => n,
    };
    if limit == 0 {
        assert(active@.take(0) =~= Seq::<bool>::empty());
        return 0;
    }
    let mut seen: u64 = 0;
    let mut i: usize = 0;
    assert(active@.take(0) =~= Seq::<bool>::empty());
    while i < active.len()
        invariant
            i <= active@.len(),
            seen == count_true(active@.take(i as int)),
            seen < limit,
            fetch == Some(limit),
            limit > 0,
            forall|j: int| 0 <= j <= i ==> count_true(#[trigger] active@.take(j)) < limit,
        decreases active@.len() - i,
    {
        proof {
            let t = active@.take(i + 1);
            assert(t.drop_last() =~= active@.take(i as int));
            assert(t.last() == active@[i as int]);
        }
        if active[i] {
            seen = seen + 1;
            if seen == limit {
                proof {
                    lemma_count_grows(active@, i + 1);
                }
                return i + 1;
            }
        }
        i = i + 1;
    }
    assert(active@.take(i as int) =~= active@);
    table_size
}

/// A prefix has no more set flags than the whole.
pub proof fn lemma_count_grows(s: Seq<bool>, i: int)
    requires
        0 <= i <= s.len(),
    ensures
        count_true(s.take(i)) <= count_true(s),
        count_true(s) <= s.len(),
    decreases s.len(),
{
    if s.len() > 0 {
        if i < s.len() {
            assert(s.drop_last().take(i) =~= s.take(i));
            lemma_count_grows(s.drop_last(), i);
        } else {
            assert(s.take(i) =~= s);
            lemma_count_grows(s.drop_last(), i - 1);
        }
    }
}

/// The prefix holds as many active rows as are fetched, or all of them where
/// there are fewer.
pub proof fn prefix_holds_the_minimum(active: Seq<bool>, fetch: Option<u64>, r: nat)
    requires
        is_prefix(active, fetch, active.len(), r),
    ensures
        count_true(active.take(r as int)) == match fetch {
            Some(n) if n <= count_true(active) => n as nat,
            _ => count_true(active),
        },
{
    if r == active.len() {
        assert(active.take(r as int) =~= active);
    }
}

/// The prefix that the other party committed to, or why it is refused.
pub open spec fn prefix_outcome(
    committed: Option<Seq<u8>>,
    num_vars: nat,
    log_size: nat,
    modulus: nat,
) -> Result<nat, LimitError> {
    match committed {
        None => Err(LimitError::PrefixNotScalar),
        Some(b) => if num_vars != 0 {
            Err(LimitError::PrefixHasVariables)
        } else if le_value(b) > usize::MAX {
            Err(LimitError::NotUsize)
        } else {
            match capacity_outcome(log_size, modulus) {
                Err(e) => Err(e),
                Ok(c) => if le_value(b) > c {
                    Err(LimitError::PrefixExceedsCapacity)
                } else {
                    Ok(le_value(b))
                },
            }
        },
    }
}

/// The bytes of an optional byte list.
pub open spec fn byte_list(b: Option<Vec<u8>>) -> Option<Seq<u8>> {
    match b {
        Some(v) => Some(v@),
        None => None,
    }
}

/// Reads the prefix length that the other party committed to.
pub fn read_prefix(
    committed: &Option<Vec<u8>>,
    num_vars: usize,
    log_size: usize,
    modulus: &Vec<u8>,
) -> (r: Result<usize, LimitError>)
    ensures
        match r {
            Ok(s) => prefix_outcome(
                byte_list(*committed),
                num_vars as nat,
                log_size as nat,
                le_value(modulus@),
            ) == Ok::<nat, LimitError>(s as nat),
            Err(e) => prefix_outcome(
                byte_list(*committed),
                num_vars as nat,
                log_size as nat,
                le_value(modulus@),
            ) == Err::<nat, LimitError>(e),
        },
{
    let bytes = match committed {
        Some(b) => b,
        None => return Err(LimitError::PrefixNotScalar),
    };
    if num_vars != 0 {
        return Err(LimitError::PrefixHasVariables);
    }
    let s: usize = match le_to_usize(bytes) {
        Some(v) => v,
        None => return Err(LimitError::NotUsize),
    };
    let capacity: usize = match checked_capacity(log_size, modulus) {
        Ok(c) => c,
        Err(e) => return Err(e),
    };
    if s > capacity {
        return Err(LimitError::PrefixExceedsCapacity);
    }
    Ok(s)
}

/// Whether a table is there and has an activator: only then is there a prefix
/// to commit to.
pub open spec fn has_activator(t: Option<&Table>) -> bool {
    t matches Some(x) && name_index(x@.cols, ACTIVATOR_COL_NAME@) is Some
}

/// The prefix that the prover commits to, given which rows of the input are
/// active; none where the input is not there or has no activator.
pub fn choose_prefix(
    skip: &Option<Box<Expr>>,
    fetch: &Option<Box<Expr>>,
    input: Option<&Table>,
    active: &Vec<bool>,
    modulus: &Vec<u8>,
) -> (r: Result<Option<usize>, LimitError>)
    ensures
        match skip_outcome(boxed_view(*skip)) {
            Err(e) => r == Err::<Option<usize>, LimitError>(e),
            Ok(_) => if has_activator(input) {
                match (capacity_outcome(input->0.log_size as nat, le_value(modulus@)), r) {
                    (Ok(c), Ok(Some(s))) => is_prefix(
                        active@,
                        fetch_literal(boxed_view(*fetch)),
                        c,
                        s as nat,
                    ),
                    (Err(e), Err(f)) => e == f,
                    _ => false,
                }
            } else {
                r == Ok::<Option<usize>, LimitError>(None)
            },
        },
{
    match ensure_no_skip(skip) {
        Ok(_) => {},
        Err(e) => return Err(e),
    }
    let table: &Table = match input {
        Some(t) => t,
        None => return Ok(None),
    };
    match find_name(&table.cols, ACTIVATOR_COL_NAME) {
        Some(_) => {},
        None => return Ok(None),
    }
    let capacity: usize = match checked_capacity(table.log_size, modulus) {
        Ok(c) => c,
        Err(e) => return Err(e),
    };
    Ok(Some(contig_s_from_fetch(active, fetch_limit_literal(fetch), capacity)))
}

/// The prefix that the verifier reads, given the commitment that comes next;
/// none where the input is not there or has no activator.
pub fn expect_prefix(
    skip: &Option<Box<Expr>>,
    input: Option<&Table>,
    committed: &Option<Vec<u8>>,
    num_vars: usize,
    modulus: &Vec<u8>,
) -> (r: Result<Option<usize>, LimitError>)
    ensures
        match skip_outcome(boxed_view(*skip)) {
            Err(e) => r == Err::<Option<usize>, LimitError>(e),
            Ok(_) => if has_activator(input) {
                match (
                    prefix_outcome(
                        byte_list(*committed),
                        num_vars as nat,
                        input->0.log_size as nat,
                        le_value(modulus@),
                    ),
                    r,
                ) {
                    (Ok(c), Ok(Some(s))) => c == s,
                    (Err(e), Err(f)) => e == f,
                    _ => false,
                }
            } else {
                r == Ok::<Option<usize>, LimitError>(None)
            },
        },
        r matches Ok(Some(s)) ==> {
            &&& committed matches Some(b) && le_value(b@) == s
            &&& input matches Some(t) && s <= pow2(t.log_size as nat)
        },
{
    match ensure_no_skip(skip) {
        Ok(_) => {},
        Err(e) => return Err(e),
    }
    let table: &Table = match input {
        Some(t) => t,
        None => return Ok(None),
    };
    match find_name(&table.cols, ACTIVATOR_COL_NAME) {
        Some(_) => {},
        None => return Ok(None),
    }
    match read_prefix(committed, num_vars, table.log_size, modulus) {
        Ok(s) => Ok(Some(s)),
        Err(e) => Err(e),
    }
}

/// The prefix that a prover commits to is the one that the verifier reads.
pub proof fn chosen_prefixes_are_read(
    active: Seq<bool>,
    fetch: Option<u64>,
    log_size: nat,
    modulus: nat,
    s: nat,
    committed: Seq<u8>,
)
    requires
        capacity_outcome(log_size, modulus) is Ok,
        active.len() == pow2(log_size),
        is_prefix(active, fetch, pow2(log_size), s),
        le_value(committed) == s,
    ensures
        prefix_outcome(Some(committed), 0, log_size, modulus) == Ok::<nat, LimitError>(s),
{
}

/// The field that holds the activator of a list of columns.
pub open spec fn activator_slot(cols: Seq<ColView>) -> FieldView {
    match name_index(cols, ACTIVATOR_COL_NAME@) {
        Some(i) => cols[i].field,
        None => activator_field_view(),
    }
}

/// The output of a `LIMIT`: every input column as it is, with the masked
/// activator, where there is one, in place of the input's.
pub open spec fn limited(input: TableView, masked: Option<Poly>) -> TableView {
    TableView {
        cols: match masked {
            Some(p) => cols_insert(input.cols, activator_slot(input.cols), p),
            None => input.cols,
        },
        side_cols: Seq::empty(),
        ..input
    }
}

/// The output of a `LIMIT`.
pub fn limited_table(input: Table, masked: Option<Poly>) -> (r: Table)
    ensures
        r@ == limited(input@, masked),
{
    let field = match find_name(&input.cols, ACTIVATOR_COL_NAME) {
        Some(i) => input.cols[i].field.copy(),
        None => activator_field(),
    };
    let mut cols: Vec<TrackedColumn> = input.cols;
    match masked {
        Some(p) => insert_col(&mut cols, field, p),
        None => {},
    }
    let r = Table {
        schema: input.schema,
        cols,
        side_cols: Vec::new(),
        log_size: input.log_size,
    };
    assert(r@.side_cols =~= Seq::<SideView>::empty());
    r
}

/// A `LIMIT` hands every column but the activator on, polynomial for
/// polynomial, in its place.
pub proof fn other_columns_pass_unchanged(input: TableView, masked: Option<Poly>, i: int)
    requires
        0 <= i < input.cols.len(),
        input.cols[i].field.name != ACTIVATOR_COL_NAME@,
    ensures
        i < limited(input, masked).cols.len(),
        limited(input, masked).cols[i] == input.cols[i],
{
    lemma_name_index(input.cols, ACTIVATOR_COL_NAME@);
    lemma_field_index(input.cols, activator_slot(input.cols));
}

/// A table of the activator alone, under another name.
pub open spec fn activator_alone(t: TableView, name: Seq<char>) -> Option<TableView> {
    match name_index(t.cols, ACTIVATOR_COL_NAME@) {
        None => None,
        Some(i) => {
            let field = plain_field(
                name,
                t.cols[i].field.data_type,
                t.cols[i].field.nullable,
            );
            Some(
                TableView {
                    schema: match t.schema {
                        Some(s) => Some(SchemaView { fields: seq![field], metadata: s.metadata }),
                        None => None,
                    },
                    cols: seq![ColView { field, poly: t.cols[i].poly }],
                    side_cols: Seq::empty(),
                    log_size: t.log_size,
                },
            )
        },
    }
}

/// Cuts the activator out of a table, under another name.
pub fn activator_only(table: &Table, name: &str) -> (r: Option<Table>)
    ensures
        match (r, activator_alone(table@, name@)) {
            (Some(t), Some(v)) => t@ == v,
            (None, None) => true,
            _ => false,
        },
{
    let i: usize = match find_name(&table.cols, ACTIVATOR_COL_NAME) {
        Some(i) => i,
        None => return None,
    };
    let field = Field::new(
        name,
        table.cols[i].field.data_type.copy(),
        table.cols[i].field.nullable,
    );
    let schema = match &table.schema {
        Some(s) => {
            let mut fields: Vec<Field> = Vec::new();
            fields.push(field.copy());
            assert(fields_view(fields@) =~= seq![field@]);
            Some(Schema { fields, metadata: s.metadata.copy() })
        },
        None => None,
    };
    let mut cols: Vec<TrackedColumn> = Vec::new();
    let poly = table.cols[i].poly;
    cols.push(TrackedColumn { field, poly });
    let out = Table { schema, cols, side_cols: Vec::new(), log_size: table.log_size };
    proof {
        assert(cols_view(cols@) =~= seq![ColView { field: field@, poly }]);
        assert(out@.side_cols =~= Seq::<SideView>::empty());
    }
    Some(out)
}

/// What the gadget of a `LIMIT` is handed: the two activators, each where its
/// table is there.
#[derive(Debug)]
pub struct ActivatorTables {
    pub input: Option<Table>,
    pub output: Option<Table>,
}

/// Whether a table is the activator of a table that may be absent.
pub open spec fn is_activator_of(r: Option<Table>, t: Option<&Table>, name: Seq<char>) -> bool {
    match (r, t) {
        (None, None) => true,
        (Some(a), Some(x)) => activator_alone(x@, name) == Some(a@),
        _ => false,
    }
}

/// Whether a table is there and has no activator.
pub open spec fn lacks_activator(t: Option<&Table>) -> bool {
    t matches Some(x) && name_index(x@.cols, ACTIVATOR_COL_NAME@) is None
}

/// Whether a table holds the activator of another table and nothing else, over
/// the same rows.
pub open spec fn is_activator_alone(r: TableView, t: TableView) -> bool {
    &&& r.log_size == t.log_size
    &&& r.cols.len() == 1
    &&& poly_named(t, "__activator__"@) == Some(r.cols[0].poly)
}

/// What the gadget of a `LIMIT` is handed under [`INPUT_ACTIVATOR_LABEL`] and
/// [`OUTPUT_ACTIVATOR_LABEL`]; none where a table has no activator.
pub fn initialize_gadgets(input: Option<&Table>, output: Option<&Table>) -> (r: Option<
    ActivatorTables,
>)
    ensures
        match r {
            Some(p) => is_activator_of(p.input, input, "input_activator"@) && is_activator_of(
                p.output,
                output,
                "output_activator"@,
            ),
            None => lacks_activator(input) || lacks_activator(output),
        },
        r matches Some(p) ==> {
            &&& p.input is Some == input is Some
            &&& p.output is Some == output is Some
            &&& input matches Some(t) ==> is_activator_alone(p.input->0@, t@)
            &&& output matches Some(t) ==> is_activator_alone(p.output->0@, t@)
        },
{
    let a: Option<Table> = match input {
        Some(t) => match activator_only(t, "input_activator") {
            Some(x) => Some(x),
            None => return None,
        },
        None => None,
    };
    let b: Option<Table> = match output {
        Some(t) => match activator_only(t, "output_activator") {
            Some(x) => Some(x),
            None => return None,
        },
        None => None,
    };
    Some(ActivatorTables { input: a, output: b })
}

// ---------------------------------------------------------------------------
// The claims
// ---------------------------------------------------------------------------

/// A claim on the activators.
#[derive(Debug, Clone, Copy, PartialEq, Eq, Structural)]
pub enum LimitClaim {
    /// Every value of the input activator is zero or one.
    InputBoolean,
    /// The output activator sums to the committed count.
    OutputCount,
    /// The two activators are equal.
    KeepAll,
}

/// What is known of a polynomial without opening it.
#[derive(Debug, Clone, Copy, PartialEq, Eq, Structural)]
pub enum Constant {
    /// It is no constant.
    Varies,
    Zero,
    NonZero,
}

/// What is known of the output activator without opening it.
#[derive(Debug, Clone, Copy, PartialEq, Eq, Structural)]
pub enum OutputConstant {
    /// It is no constant.
    Varies,
    /// It is a constant whose sum is the committed count.
    SumMatches,
    /// It is a constant with another sum.
    SumDiffers,
}

/// A table of the gadget's payload: the size of its domain and the number of
/// its data columns.
#[derive(Debug, Clone, Copy, PartialEq, Eq, Structural)]
pub struct ActivatorTable {
    pub log_size: usize,
    pub data_columns: usize,
}

/// The payload of the gadget.
#[derive(Debug, Clone, Copy, PartialEq, Eq, Structural)]
pub struct LimitPayload {
    pub input: Option<ActivatorTable>,
    pub output: Option<ActivatorTable>,
}

/// The activators that the claims are on, and the size of their domain.
#[derive(Debug, Clone, Copy, PartialEq, Eq, Structural)]
pub struct LimitActivators {
    pub input: Poly,
    pub output: Poly,
    pub log_size: usize,
}

/// The polynomial of the only data column of a table.
pub open spec fn only_data(t: TableView) -> Option<Poly> {
    let found = indices_where(t.cols, is_data());
    if found.len() == 1 {
        Some(t.cols[found[0]].poly)
    } else {
        None
    }
}

/// The tables of a payload as mathematical values.
pub open spec fn payload_tables(p: Option<&ActivatorTables>) -> Option<
    (Option<TableView>, Option<TableView>),
> {
    match p {
        Some(x) => Some((table_opt(x.input), table_opt(x.output))),
        None => None,
    }
}

/// The activators of a payload, or why a `LIMIT` over it is refused.
pub open spec fn activators_outcome(
    skip: Option<ExprView>,
    payload: Option<(Option<TableView>, Option<TableView>)>,
) -> Result<LimitActivators, LimitError> {
    match skip_outcome(skip) {
        Err(e) => Err(e),
        Ok(_) => match payload {
            None => Err(LimitError::PayloadMissing),
            Some((None, _)) => Err(LimitError::InputMissing),
            Some((Some(_), None)) => Err(LimitError::OutputMissing),
            Some((Some(i), Some(o))) => if i.log_size != o.log_size {
                Err(LimitError::DimensionsDiffer)
            } else {
                match (only_data(i), only_data(o)) {
                    (None, _) => Err(LimitError::InputColumns),
                    (Some(_), None) => Err(LimitError::OutputColumns),
                    (Some(a), Some(b)) => Ok(
                        LimitActivators { input: a, output: b, log_size: i.log_size },
                    ),
                }
            },
        },
    }
}

fn find_only_data(t: &Table) -> (r: Option<Poly>)
    ensures
        r == only_data(t@),
{
    let found: Vec<usize> = data_indices(t);
    assert(ints(found@).len() == found@.len());
    if found.len() == 1 {
        let k: usize = found[0];
        assert(ints(found@)[0] == k);
        assert(t@.cols[k as int] == t.cols@[k as int]@);
        Some(t.cols[k].poly)
    } else {
        None
    }
}

/// The activators that the claims of a `LIMIT` are on.
pub fn locate_activators(skip: &Option<Box<Expr>>, payload: Option<&ActivatorTables>) -> (r: Result<
    LimitActivators,
    LimitError,
>)
    ensures
        r == activators_outcome(boxed_view(*skip), payload_tables(payload)),
{
    match ensure_no_skip(skip) {
        Ok(_) => {},
        Err(e) => return Err(e),
    }
    let tables: &ActivatorTables = match payload {
        Some(p) => p,
        None => return Err(LimitError::PayloadMissing),
    };
    let input: &Table = match &tables.input {
        Some(t) => t,
        None => return Err(LimitError::InputMissing),
    };
    let output: &Table = match &tables.output {
        Some(t) => t,
        None => return Err(LimitError::OutputMissing),
    };
    if input.log_size != output.log_size {
        return Err(LimitError::DimensionsDiffer);
    }
    match (find_only_data(input), find_only_data(output)) {
        (None, _) => Err(LimitError::InputColumns),
        (Some(_), None) => Err(LimitError::OutputColumns),
        (Some(a), Some(b)) => Ok(LimitActivators { input: a, output: b, log_size: input.log_size }),
    }
}

/// Whether a table of a payload has the given shape.
pub open spec fn table_shape(s: Option<ActivatorTable>, t: Option<TableView>) -> bool {
    match (s, t) {
        (None, None) => true,
        (Some(a), Some(x)) => a.log_size == x.log_size && a.data_columns == indices_where(
            x.cols,
            is_data(),
        ).len(),
        _ => false,
    }
}

/// Whether a payload has the given shape.
pub open spec fn has_shape(
    s: Option<LimitPayload>,
    payload: Option<(Option<TableView>, Option<TableView>)>,
) -> bool {
    match (s, payload) {
        (None, None) => true,
        (Some(p), Some((i, o))) => table_shape(p.input, i) && table_shape(p.output, o),
        _ => false,
    }
}

fn shape_of_table(t: &Option<Table>) -> (r: Option<ActivatorTable>)
    ensures
        table_shape(r, table_opt(*t)),
{
    match t {
        Some(x) => {
            let found: Vec<usize> = data_indices(x);
            assert(ints(found@).len() == found@.len());
            Some(ActivatorTable { log_size: x.log_size, data_columns: found.len() })
        },
        None => None,
    }
}

/// The shape of a payload.
pub fn payload_shape(payload: Option<&ActivatorTables>) -> (r: Option<LimitPayload>)
    ensures
        has_shape(r, payload_tables(payload)),
{
    match payload {
        Some(p) => Some(
            LimitPayload { input: shape_of_table(&p.input), output: shape_of_table(&p.output) },
        ),
        None => None,
    }
}

/// The committed count of output rows: the number of its variables and its
/// little-endian bytes, where it is a constant.
#[derive(Debug)]
pub struct CommittedCount {
    pub num_vars: usize,
    pub value: Option<Vec<u8>>,
}

/// Constants among the polynomials of the gadget.
#[derive(Debug, Clone, Copy, PartialEq, Eq, Structural)]
pub struct LimitConstants {
    pub input_boolean: Constant,
    pub output: OutputConstant,
    pub omitted_rows: Constant,
}

/// Whether a count leaves room below the fetch, so that every input row must
/// have survived, or why the count is refused.
pub open spec fn keep_all_outcome(
    fetch: FetchType,
    count: nat,
    log_size: nat,
    modulus: nat,
) -> Result<bool, LimitError> {
    match capacity_outcome(log_size, modulus) {
        Err(e) => Err(e),
        Ok(c) => if count > usize::MAX {
            Err(LimitError::NotUsize)
        } else if count > c {
            Err(LimitError::CountExceedsCapacity)
        } else {
            match fetch {
                FetchType::Literal(Some(f)) => if count <= f {
                    Ok(count < f)
                } else {
                    Err(LimitError::CountExceedsFetch)
                },
                FetchType::Literal(None) => Ok(true),
                _ => Err(LimitError::FetchNotLiteral),
            }
        },
    }
}

/// Whether every input row must have survived, given the output count by its
/// little-endian bytes.
pub fn requires_all_input(
    fetch: &Option<Box<Expr>>,
    count: &Vec<u8>,
    log_size: usize,
    modulus: &Vec<u8>,
) -> (r: Result<bool, LimitError>)
    ensures
        r == keep_all_outcome(
            fetch_type(boxed_view(*fetch)),
            le_value(count@),
            log_size as nat,
            le_value(modulus@),
        ),
{
    let capacity: usize = match checked_capacity(log_size, modulus) {
        Ok(c) => c,
        Err(e) => return Err(e),
    };
    let count: usize = match le_to_usize(count) {
        Some(v) => v,
        None => return Err(LimitError::NotUsize),
    };
    if count > capacity {
        return Err(LimitError::CountExceedsCapacity);
    }
    match get_fetch_type(fetch) {
        FetchType::Literal(Some(f)) => {
            if count as u64 <= f {
                Ok((count as u64) < f)
            } else {
                Err(LimitError::CountExceedsFetch)
            }
        },
        FetchType::Literal(None) => Ok(true),
        _ => Err(LimitError::FetchNotLiteral),
    }
}

/// The claims that `LIMIT` puts on its activators, or why it is refused.
pub open spec fn limit_claims(
    skip: Option<ExprView>,
    fetch: Option<ExprView>,
    payload: Option<LimitPayload>,
    num_vars: nat,
    count: Option<Seq<u8>>,
    modulus: nat,
    constants: LimitConstants,
) -> Result<Seq<LimitClaim>, LimitError> {
    match skip_outcome(skip) {
        Err(e) => Err(e),
        Ok(_) => match payload {
            None => Err(LimitError::PayloadMissing),
            Some(LimitPayload { input: None, .. }) => Err(LimitError::InputMissing),
            Some(LimitPayload { output: None, .. }) => Err(LimitError::OutputMissing),
            Some(LimitPayload { input: Some(i), output: Some(o) }) => if i.log_size != o.log_size {
                Err(LimitError::DimensionsDiffer)
            } else if i.data_columns != 1 {
                Err(LimitError::InputColumns)
            } else if o.data_columns != 1 {
                Err(LimitError::OutputColumns)
            } else if num_vars != 0 {
                Err(LimitError::CountHasVariables)
            } else {
                match count {
                    None => Err(LimitError::CountNotScalar),
                    Some(bytes) => match keep_all_outcome(
                        fetch_type(fetch),
                        le_value(bytes),
                        i.log_size as nat,
                        modulus,
                    ) {
                        Err(e) => Err(e),
                        Ok(keep_all) => if constants.input_boolean == Constant::NonZero {
                            Err(LimitError::InputNotBoolean)
                        } else if constants.output == OutputConstant::SumDiffers {
                            Err(LimitError::CountIncorrect)
                        } else if keep_all && constants.omitted_rows == Constant::NonZero {
                            Err(LimitError::OmittedRow)
                        } else {
                            Ok(
                                (if constants.input_boolean == Constant::Varies {
                                    seq![LimitClaim::InputBoolean]
                                } else {
                                    Seq::empty()
                                }) + (if constants.output == OutputConstant::Varies {
                                    seq![LimitClaim::OutputCount]
                                } else {
                                    Seq::empty()
                                }) + (if keep_all && constants.omitted_rows == Constant::Varies {
                                    seq![LimitClaim::KeepAll]
                                } else {
                                    Seq::empty()
                                }),
                            )
                        },
                    },
                }
            },
        },
    }
}

/// A payload without its two activators is refused by the claims for the same
/// reason that the activators are not located for.
pub proof fn unlocated_activators_are_refused(
    skip: Option<ExprView>,
    fetch: Option<ExprView>,
    payload: Option<(Option<TableView>, Option<TableView>)>,
    shape: Option<LimitPayload>,
    num_vars: nat,
    count: Option<Seq<u8>>,
    modulus: nat,
    constants: LimitConstants,
)
    requires
        has_shape(shape, payload),
        activators_outcome(skip, payload) is Err,
    ensures
        limit_claims(skip, fetch, shape, num_vars, count, modulus, constants) == Err::<
            Seq<LimitClaim>,
            LimitError,
        >(activators_outcome(skip, payload)->Err_0),
{
}

/// Lists the claims that `LIMIT` puts on its activators. Both parties call
/// this: the one on the count that it is about to commit to, the other on the
/// count that it finds committed.
pub fn claims(
    skip: &Option<Box<Expr>>,
    fetch: &Option<Box<Expr>>,
    payload: Option<LimitPayload>,
    count: &CommittedCount,
    modulus: &Vec<u8>,
    constants: LimitConstants,
) -> (r: Result<Vec<LimitClaim>, LimitError>)
    ensures
        match r {
            Ok(list) => limit_claims(
                boxed_view(*skip),
                boxed_view(*fetch),
                payload,
                count.num_vars as nat,
                byte_list(count.value),
                le_value(modulus@),
                constants,
            ) == Ok::<Seq<LimitClaim>, LimitError>(list@),
            Err(e) => limit_claims(
                boxed_view(*skip),
                boxed_view(*fetch),
                payload,
                count.num_vars as nat,
                byte_list(count.value),
                le_value(modulus@),
                constants,
            ) == Err::<Seq<LimitClaim>, LimitError>(e),
        },
{
    match ensure_no_skip(skip) {
        Ok(_) => {},
        Err(e) => return Err(e),
    }
    let payload = match payload {
        Some(p) => p,
        None => return Err(LimitError::PayloadMissing),
    };
    let input = match payload.input {
        Some(t) => t,
        None => return Err(LimitError::InputMissing),
    };
    let output = match payload.output {
        Some(t) => t,
        None => return Err(LimitError::OutputMissing),
    };
    if input.log_size != output.log_size {
        return Err(LimitError::DimensionsDiffer);
    }
    if input.data_columns != 1 {
        return Err(LimitError::InputColumns);
    }
    if output.data_columns != 1 {
        return Err(LimitError::OutputColumns);
    }
    if count.num_vars != 0 {
        return Err(LimitError::CountHasVariables);
    }
    let bytes = match &count.value {
        Some(b) => b,
        None => return Err(LimitError::CountNotScalar),
    };
    let keep_all = match requires_all_input(fetch, bytes, input.log_size, modulus) {
        Ok(k) => k,
        Err(e) => return Err(e),
    };
    let mut out: Vec<LimitClaim> = Vec::new();
    match constants.input_boolean {
        Constant::NonZero => return Err(LimitError::InputNotBoolean),
        Constant::Zero => {},
        Constant::Varies => {
            out.push(LimitClaim::InputBoolean);
        },
    }
    match constants.output {
        OutputConstant::SumDiffers => return Err(LimitError::CountIncorrect),
        OutputConstant::SumMatches => {},
        OutputConstant::Varies => {
            out.push(LimitClaim::OutputCount);
        },
    }
    if keep_all {
        match constants.omitted_rows {
            Constant::NonZero => return Err(LimitError::OmittedRow),
            Constant::Zero => {},
            Constant::Varies => {
                out.push(LimitClaim::KeepAll);
            },
        }
    }
    proof {
        let want = limit_claims(
            boxed_view(*skip),
            boxed_view(*fetch),
            Some(payload),
            count.num_vars as nat,
            byte_list(count.value),
            le_value(modulus@),
            constants,
        );
        assert(out@ =~= want->Ok_0);
    }
    Ok(out)
}

/// The columns that the claims speak of.
pub struct LimitColumns {
    /// Values of the input activator.
    pub input: Seq<int>,
    /// Values of the output activator.
    pub output: Seq<int>,
    /// The committed count.
    pub count: int,
    /// The field modulus.
    pub p: int,
}

/// What a claim says of the columns.
pub open spec fn claim_holds(c: LimitClaim, x: LimitColumns) -> bool {
    match c {
        LimitClaim::InputBoolean => boolean_claim(x.input, x.p),
        LimitClaim::OutputCount => sum_claim(x.output, x.count, x.p),
        LimitClaim::KeepAll => equal_claim(x.input, x.output, x.p),
    }
}

/// Whether what is said of constants is true of the columns.
pub open spec fn constants_hold(k: LimitConstants, x: LimitColumns) -> bool {
    &&& k.input_boolean == Constant::Zero ==> boolean_claim(x.input, x.p)
    &&& k.output == OutputConstant::SumMatches ==> sum_claim(x.output, x.count, x.p)
    &&& k.omitted_rows == Constant::Zero ==> equal_claim(x.input, x.output, x.p)
}

/// The claims of a `LIMIT` leave one possible number of output rows: the
/// smaller of the fetch and the number of active input rows, and without a
/// fetch all of them. A committed count is that number.
pub proof fn claims_fix_the_count(
    skip: Option<ExprView>,
    fetch: Option<ExprView>,
    payload: Option<LimitPayload>,
    num_vars: nat,
    count: Option<Seq<u8>>,
    constants: LimitConstants,
    list: Seq<LimitClaim>,
    x: LimitColumns,
    s: int,
)
    requires
        field_modulus(x.p),
        limit_claims(skip, fetch, payload, num_vars, count, x.p as nat, constants) == Ok::<
            Seq<LimitClaim>,
            LimitError,
        >(list),
        count matches Some(b) ==> le_value(b) == x.count,
        residues(x.input, x.p),
        residues(x.output, x.p),
        x.input.len() == x.output.len(),
        payload matches Some(LimitPayload { input: Some(t), .. }) ==> x.input.len() == pow2(
            t.log_size as nat,
        ),
        // the output is a physical prefix of the input
        forall|i: int|
            0 <= i < x.input.len() ==> #[trigger] x.output[i] == (if i < s {
                x.input[i]
            } else {
                0
            }),
        constants_hold(constants, x),
        forall|i: int| 0 <= i < list.len() ==> claim_holds(#[trigger] list[i], x),
    ensures
        is_boolean(x.input),
        is_boolean(x.output),
        match fetch_type(fetch) {
            FetchType::Literal(Some(f)) => ones(x.output) == (if f <= ones(x.input) {
                f as nat
            } else {
                ones(x.input)
            }),
            FetchType::Literal(None) => x.output == x.input,
            _ => false,
        },
        count is Some ==> x.count == ones(x.output),
{
    if constants.input_boolean == Constant::Varies {
        assert(claim_holds(list[0], x));
    }
    boolean_claim_is_boolean(x.input, x.p);
    assert forall|i: int| 0 <= i < x.output.len() implies (#[trigger] x.output[i] == 0
        || x.output[i] == 1) by {
        assert(x.input[i] == 0 || x.input[i] == 1);
    }
    if constants.output == OutputConstant::Varies {
        let k = if constants.input_boolean == Constant::Varies {
            1int
        } else {
            0int
        };
        assert(list[k] == LimitClaim::OutputCount);
        assert(claim_holds(list[k], x));
    }
    sum_claim_counts(x.output, x.count, x.p);
    prefix_ones(x.input, x.output, s);
    let keep_all = match fetch_type(fetch) {
        FetchType::Literal(Some(f)) => x.count < f,
        _ => true,
    };
    if keep_all {
        if constants.omitted_rows == Constant::Varies {
            let k = list.len() - 1;
            assert(list[k] == LimitClaim::KeepAll);
            assert(claim_holds(list[k], x));
        }
        equal_claim_is_equal(x.input, x.output, x.p);
    }
}

/// Whether what is said of constants is not said falsely to refuse the
/// columns.
pub open spec fn constants_are_fair(k: LimitConstants, x: LimitColumns) -> bool {
    &&& k.input_boolean == Constant::NonZero ==> !boolean_claim(x.input, x.p)
    &&& k.output == OutputConstant::SumDiffers ==> !sum_claim(x.output, x.count, x.p)
    &&& k.omitted_rows == Constant::NonZero ==> !equal_claim(x.input, x.output, x.p)
}

/// An honest `LIMIT` is not refused and all of its claims hold: the prefix
/// with the first rows up to the fetch, or with all rows where there are
/// fewer or no fetch is given, passes whatever rows are active.
pub proof fn honest_prefixes_pass(
    skip: Option<ExprView>,
    fetch: Option<ExprView>,
    table: ActivatorTable,
    count: Seq<u8>,
    constants: LimitConstants,
    x: LimitColumns,
    s: int,
)
    requires
        x.p > 1,
        skip_outcome(skip) is Ok,
        table.data_columns == 1,
        capacity_outcome(table.log_size as nat, x.p as nat) is Ok,
        x.input.len() == pow2(table.log_size as nat),
        x.output.len() == x.input.len(),
        is_boolean(x.input),
        forall|i: int|
            0 <= i < x.input.len() ==> #[trigger] x.output[i] == (if i < s {
                x.input[i]
            } else {
                0
            }),
        le_value(count) == ones(x.output),
        x.count == ones(x.output),
        match fetch_type(fetch) {
            FetchType::Literal(Some(f)) => ones(x.output) == (if f <= ones(x.input) {
                f as nat
            } else {
                ones(x.input)
            }),
            FetchType::Literal(None) => ones(x.output) == ones(x.input),
            _ => false,
        },
        constants_are_fair(constants, x),
    ensures
        ({
            let payload = Some(LimitPayload { input: Some(table), output: Some(table) });
            let outcome = limit_claims(
                skip,
                fetch,
                payload,
                0,
                Some(count),
                x.p as nat,
                constants,
            );
            &&& outcome is Ok
            &&& forall|i: int|
                0 <= i < outcome->Ok_0.len() ==> claim_holds(#[trigger] outcome->Ok_0[i], x)
        }),
{
    assert forall|i: int| 0 <= i < x.output.len() implies (#[trigger] x.output[i] == 0
        || x.output[i] == 1) by {
        assert(x.input[i] == 0 || x.input[i] == 1);
    }
    boolean_values_pass(x.input, x.p);
    boolean_sum_counts(x.output);
    vstd::arithmetic::div_mod::lemma_small_mod(ones(x.output), x.p as nat);
    assert(sum_claim(x.output, x.count, x.p));
    if ones(x.output) == ones(x.input) {
        same_ones_same_column(x.input, x.output, s);
        equal_columns_pass(x.input, x.p);
    }
}

/// A whole number written in the query.
pub open spec fn number(n: i64) -> ExprView {
    ExprView::Literal(ScalarView::Int64(Some(n)))
}

/// A `LIMIT` is accepted exactly when it skips nothing: without an offset, or
/// with one that is null or the literal zero. Every positive literal is
/// refused with the number of rows that it would skip.
pub proof fn only_limits_without_an_offset_are_accepted(skip: Option<ExprView>)
    ensures
        skip_outcome(skip) is Ok <==> {
            ||| skip is None
            ||| skip == Some(ExprView::Literal(ScalarView::Int64(None)))
            ||| skip == Some(ExprView::Literal(ScalarView::Int64(Some(0))))
        },
        forall|n: i64|
            skip == Some(#[trigger] number(n)) && n > 0
                ==> skip_outcome(skip) == Err::<(), LimitError>(LimitError::Offset(n as u64)),
{
}

/// Rows are counted against a fetch exactly when it is a literal that is not
/// negative, and against that literal.
pub proof fn fetches_are_the_literals_of_the_query(fetch: Option<ExprView>)
    ensures
        forall|n: i64|
            n >= 0 && fetch == Some(#[trigger] number(n))
                ==> fetch_literal(fetch) == Some(n as u64),
        fetch_literal(fetch) matches Some(f) ==> exists|n: i64|
            n == f && fetch == Some(#[trigger] number(n)),
        fetch is None ==> fetch_type(fetch) == FetchType::Literal(None),
        fetch == Some(ExprView::Literal(ScalarView::Int64(None))) ==> fetch_type(fetch)
            == FetchType::Literal(None),
        fetch_literal(fetch) matches Some(f) ==> fetch_type(fetch) == FetchType::Literal(Some(f)),
{
    match fetch {
        Some(ExprView::Literal(ScalarView::Int64(Some(n)))) => {
            if n >= 0 {
                assert(fetch == Some(number(n)));
            }
        },
        _ => {},
    }
}

/// A prefix that the verifier accepts is the committed number, and no longer
/// than the table.
pub proof fn accepted_prefixes_stay_within_the_table(
    committed: Seq<u8>,
    num_vars: nat,
    log_size: nat,
    modulus: nat,
)
    ensures
        prefix_outcome(Some(committed), num_vars, log_size, modulus) matches Ok(s) ==> {
            &&& s == le_value(committed)
            &&& s <= pow2(log_size) < modulus
            &&& num_vars == 0
        },
        prefix_outcome(Some(committed), num_vars, log_size, modulus) is Err ==> {
            ||| num_vars != 0
            ||| le_value(committed) > pow2(log_size)
            ||| pow2(log_size) >= modulus
            ||| pow2(log_size) > usize::MAX
        },
{
}

/// The output of a `LIMIT` has the columns of its input in their places, over
/// the same schema and rows; its activator is the masked one, and without a
/// mask the input's.
pub proof fn the_masked_activator_takes_its_place(input: TableView, p: Poly, i: int)
    requires
        0 <= i < input.cols.len(),
        input.cols[i].field.name == "__activator__"@,
        forall|j: int|
            0 <= j < input.cols.len() && j != i ==> (#[trigger] input.cols[j]).field.name
                != "__activator__"@,
    ensures
        limited(input, Some(p)).cols.len() == input.cols.len(),
        limited(input, Some(p)).cols[i].field == input.cols[i].field,
        limited(input, Some(p)).cols[i].poly == p,
        limited(input, Some(p)).log_size == input.log_size,
        limited(input, Some(p)).schema == input.schema,
        limited(input, None).cols == input.cols,
{
    lemma_name_index(input.cols, ACTIVATOR_COL_NAME@);
    assert(name_index(input.cols, ACTIVATOR_COL_NAME@) == Some(i));
    lemma_field_index(input.cols, activator_slot(input.cols));
}

proof fn lemma_alone(t: TableView, name: Seq<char>, i: int)
    requires
        0 <= i < t.cols.len(),
        t.cols[i].field.name == "__activator__"@,
        forall|j: int|
            0 <= j < t.cols.len() && j != i ==> (#[trigger] t.cols[j]).field.name
                != "__activator__"@,
        name != "__activator__"@,
        name != "__row_id__"@,
    ensures
        activator_alone(t, name) is Some,
        activator_alone(t, name)->0.log_size == t.log_size,
        only_data(activator_alone(t, name)->0) == Some(t.cols[i].poly),
{
    lemma_name_index(t.cols, ACTIVATOR_COL_NAME@);
    assert(name_index(t.cols, ACTIVATOR_COL_NAME@) == Some(i));
    let cols = activator_alone(t, name)->0.cols;
    assert(cols.drop_last() =~= Seq::empty());
    assert(is_data()(cols[0]));
    reveal_with_fuel(indices_where, 2);
    assert(indices_where(cols, is_data()) =~= seq![0]);
}

/// The claims of a `LIMIT` are on the activators of its input and of its
/// output, each as such, over the rows that the two share.
pub proof fn claims_are_on_the_activators_of_both_tables(
    skip: Option<ExprView>,
    input: TableView,
    i: int,
    output: TableView,
    o: int,
)
    requires
        skip_outcome(skip) is Ok,
        0 <= i < input.cols.len(),
        input.cols[i].field.name == "__activator__"@,
        forall|j: int|
            0 <= j < input.cols.len() && j != i ==> (#[trigger] input.cols[j]).field.name
                != "__activator__"@,
        0 <= o < output.cols.len(),
        output.cols[o].field.name == "__activator__"@,
        forall|j: int|
            0 <= j < output.cols.len() && j != o ==> (#[trigger] output.cols[j]).field.name
                != "__activator__"@,
    ensures
        ({
            let r = activators_outcome(
                skip,
                Some(
                    (
                        activator_alone(input, "input_activator"@),
                        activator_alone(output, "output_activator"@),
                    ),
                ),
            );
            &&& input.log_size == output.log_size ==> r == Ok::<LimitActivators, LimitError>(
                LimitActivators {
                    input: input.cols[i].poly,
                    output: output.cols[o].poly,
                    log_size: input.log_size,
                },
            )
            &&& input.log_size != output.log_size ==> r is Err
        }),
{
    reveal_strlit("__activator__");
    reveal_strlit("__row_id__");
    reveal_strlit("input_activator");
    reveal_strlit("output_activator");
    assert("input_activator"@[0] == 'i');
    assert("output_activator"@[0] == 'o');
    assert("__activator__"@[0] == '_');
    assert("__row_id__"@[0] == '_');
    lemma_alone(input, "input_activator"@, i);
    lemma_alone(output, "output_activator"@, o);
}

/// A count is refused for the first of these that it exceeds: the machine's
/// numbers, the rows of the table, the fetch of the query. It is refused for
/// nothing else where the fetch is a literal and the rows can be counted.
pub proof fn counts_are_refused_for_what_they_exceed(
    fetch: FetchType,
    count: nat,
    log_size: nat,
    modulus: nat,
)
    requires
        pow2(log_size) <= usize::MAX,
        pow2(log_size) < modulus,
    ensures
        count > usize::MAX ==> keep_all_outcome(fetch, count, log_size, modulus) == Err::<
            bool,
            LimitError,
        >(LimitError::NotUsize),
        pow2(log_size) < count <= usize::MAX ==> keep_all_outcome(fetch, count, log_size, modulus)
            == Err::<bool, LimitError>(LimitError::CountExceedsCapacity),
        count <= pow2(log_size) ==> match fetch {
            FetchType::Literal(None) => keep_all_outcome(fetch, count, log_size, modulus) == Ok::<
                bool,
                LimitError,
            >(true),
            FetchType::Literal(Some(f)) => {
                &&& count > f ==> keep_all_outcome(fetch, count, log_size, modulus) == Err::<
                    bool,
                    LimitError,
                >(LimitError::CountExceedsFetch)
                &&& count == f ==> keep_all_outcome(fetch, count, log_size, modulus) == Ok::<
                    bool,
                    LimitError,
                >(false)
                &&& count < f ==> keep_all_outcome(fetch, count, log_size, modulus) == Ok::<
                    bool,
                    LimitError,
                >(true)
            },
            _ => keep_all_outcome(fetch, count, log_size, modulus) == Err::<bool, LimitError>(
                LimitError::FetchNotLiteral,
            ),
        },
{
}

} // verus!
