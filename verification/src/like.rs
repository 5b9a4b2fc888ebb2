//! `LIKE` expressions: where their inputs come from, which witness columns
//! are committed in which order, and how the pattern-matching gadget is wired
//! to them. The order of commitments is the contract between the two parties:
//! both walk the same list.
use crate::metadata::Metadata;
use crate::plan::{Column, ColumnView, Expr, ExprView, ScalarValue, ScalarView, Schema};
use crate::schema::{fields_view, plain_field, DataType, Field, FieldView, TypeView};
use crate::table::{
    activator_field, activator_field_view, cols_insert, cols_view, field_index, find_name,
    insert_col, lemma_field_index, lemma_name_index, name_index, plain_schema, poly_named,
    sides_view, table_of, ColView, Party, Poly, PolyId, SideColumn, SideView, Table, TableView,
    TrackedColumn, ACTIVATOR_COL_NAME, ROW_ID_COL_NAME, STRING_LENGTH_SUFFIX,
};
use crate::text::{
    decimal, decimal_text, has_suffix, join_text, join_text3, same_text, without_suffix,
};
use vstd::prelude::*;
use vstd::string::*;

verus! {

/// Suffix of the side column that holds a string column's characters.
pub const STRING_CHARS_SUFFIX: &'static str = "__chars";

/// Suffix of the side column that holds the row of each character.
pub const STRING_ORIG_IND_SUFFIX: &'static str = "__orig_ind";

/// Suffix of the side column that holds each character's place in its string.
pub const STRING_INT_IND_SUFFIX: &'static str = "__int_ind";

/// Suffix of the side column that marks string boundaries.
pub const STRING_BND_SUFFIX: &'static str = "__bnd";

// ---------------------------------------------------------------------------
// The expression
// ---------------------------------------------------------------------------

/// A `LIKE` that cannot be proved.
#[derive(Debug, Clone, Copy, PartialEq, Eq, Structural)]
pub enum LikeUnsupported {
    /// The expression is no `LIKE`.
    NotLike,
    /// `NOT LIKE`.
    Negated,
    /// `ILIKE`.
    CaseInsensitive,
    /// An `ESCAPE` clause.
    Escape,
    /// A pattern that is no string literal.
    Pattern,
}

/// The text of a string literal.
pub open spec fn literal_text(e: ExprView) -> Option<Seq<char>> {
    match e {
        ExprView::Literal(ScalarView::Utf8(Some(s))) => Some(s),
        ExprView::Literal(ScalarView::LargeUtf8(Some(s))) => Some(s),
        ExprView::Literal(ScalarView::Utf8View(Some(s))) => Some(s),
        _ => None,
    }
}

/// The pattern of a supported `LIKE`, or why it is not supported.
pub open spec fn like_pattern(e: ExprView) -> Result<Seq<char>, LikeUnsupported> {
    match e {
        ExprView::Like { negated, expr, pattern, escape_char, case_insensitive } => if negated {
            Err(LikeUnsupported::Negated)
        } else if case_insensitive {
            Err(LikeUnsupported::CaseInsensitive)
        } else if escape_char is Some {
            Err(LikeUnsupported::Escape)
        } else {
            match literal_text(*pattern) {
                Some(s) => Ok(s),
                None => Err(LikeUnsupported::Pattern),
            }
        },
        _ => Err(LikeUnsupported::NotLike),
    }
}

fn string_literal(e: &Expr) -> (r: Option<String>)
    ensures
        match (r, literal_text(e@)) {
            (Some(s), Some(v)) => s@ == v,
            (None, None) => true,
            _ => false,
        },
{
    match e {
        Expr::Literal(ScalarValue::Utf8(Some(s))) => Some(s.clone()),
        Expr::Literal(ScalarValue::LargeUtf8(Some(s))) => Some(s.clone()),
        Expr::Literal(ScalarValue::Utf8View(Some(s))) => Some(s.clone()),
        _ => None,
    }
}

/// The pattern text of a `LIKE` that can be proved. What the text holds, such as
/// a wildcard for a single character, is looked at when it is split into
/// factors.
pub fn supported_pattern(expr: &Expr) -> (r: Result<String, LikeUnsupported>)
    ensures
        match r {
            Ok(s) => like_pattern(expr@) == Ok::<Seq<char>, LikeUnsupported>(s@),
            Err(e) => like_pattern(expr@) == Err::<Seq<char>, LikeUnsupported>(e),
        },
{
    match expr {
        Expr::Like { negated, expr: _, pattern, escape_char, case_insensitive } => {
            if *negated {
                return Err(LikeUnsupported::Negated);
            }
            if *case_insensitive {
                return Err(LikeUnsupported::CaseInsensitive);
            }
            match escape_char {
                Some(_) => return Err(LikeUnsupported::Escape),
                None => {},
            }
            match string_literal(pattern) {
                Some(s) => Ok(s),
                None => Err(LikeUnsupported::Pattern),
            }
        },
        _ => Err(LikeUnsupported::NotLike),
    }
}

/// The pattern as it shows in names: its text when it is a plain string
/// literal, a question mark otherwise.
pub open spec fn pattern_label(pattern: ExprView) -> Seq<char> {
    match pattern {
        ExprView::Literal(ScalarView::Utf8(Some(s))) => s,
        _ => "?"@,
    }
}

/// The pattern as it shows in names.
pub fn short_pattern_label(pattern: &Expr) -> (r: String)
    ensures
        r@ == pattern_label(pattern@),
{
    match pattern {
        Expr::Literal(ScalarValue::Utf8(Some(s))) => s.clone(),
        _ => "?".to_owned(),
    }
}

/// Name of the column that a `LIKE` puts out.
pub open spec fn like_output_name(input: ExprView, pattern: ExprView) -> Seq<char> {
    let head = match input {
        ExprView::Column(c) => c.name,
        _ => "expr"@,
    };
    head + "_LIKE_"@ + pattern_label(pattern)
}

/// Name of the column that a `LIKE` puts out.
pub fn output_field_name(input: &Expr, pattern: &Expr) -> (r: String)
    ensures
        r@ == like_output_name(input@, pattern@),
{
    let head: String = match input {
        Expr::Column(c) => c.name.clone(),
        _ => "expr".to_owned(),
    };
    let tail: String = short_pattern_label(pattern);
    join_text3(head.as_str(), "_LIKE_", tail.as_str())
}

/// Field of the column that a `LIKE` puts out.
pub open spec fn like_output_field(input: ExprView, pattern: ExprView) -> FieldView {
    plain_field(like_output_name(input, pattern), TypeView::Boolean, true)
}

/// Field of the column that a `LIKE` puts out.
pub fn output_field(input: &Expr, pattern: &Expr) -> (r: Field)
    ensures
        r@ == like_output_field(input@, pattern@),
{
    let name: String = output_field_name(input, pattern);
    Field::new(name.as_str(), DataType::Boolean, true)
}

/// One line that names the node, its input, its pattern and the number of
/// factors of the pattern.
pub fn display(input_name: &str, pattern: &Expr, factors: usize) -> (r: String)
    ensures
        r@ == "Like\nInput: "@ + input_name@ + ", pattern: '"@ + pattern_label(pattern@)
            + "' (t="@ + decimal(factors as nat) + ")"@,
{
    let mut out: String = join_text("Like\nInput: ", input_name);
    out.append(", pattern: '");
    let label: String = short_pattern_label(pattern);
    out.append(label.as_str());
    out.append("' (t=");
    let count: String = decimal_text(factors);
    out.append(count.as_str());
    out.append(")");
    out
}

/// The string columns whose side columns a `LIKE` reads: none when its pattern
/// has no literal factor, else those that its input refers to.
pub fn required_side_columns(factors: usize, referenced: &Vec<Column>) -> (r: Vec<String>)
    ensures
        factors == 0 ==> r@.len() == 0,
        factors > 0 ==> r@.len() == referenced@.len() && forall|i: int|
            0 <= i < r@.len() ==> (#[trigger] r@[i])@ == referenced@[i]@.name,
{
    let mut out: Vec<String> = Vec::new();
    if factors == 0 {
        return out;
    }
    let mut i: usize = 0;
    while i < referenced.len()
        invariant
            i <= referenced@.len(),
            out@.len() == i,
            forall|j: int| 0 <= j < i ==> (#[trigger] out@[j])@ == referenced@[j]@.name,
        decreases referenced@.len() - i,
    {
        out.push(referenced[i].name.clone());
        i = i + 1;
    }
    out
}

// ---------------------------------------------------------------------------
// Inputs
// ---------------------------------------------------------------------------

/// An input of the pattern-matching gadget that is not there.
#[derive(Debug, Clone, Copy, PartialEq, Eq, Structural)]
pub enum LikeError {
    NoStringColumn,
    MissingChars,
    MissingOrigInd,
    MissingIntInd,
    MissingBnd,
    MissingLength,
    MissingCharActivator,
    MissingActivator,
    MissingOutput,
}

/// Position of the first side column whose name ends with `suffix`.
pub open spec fn first_with_suffix(s: Seq<SideView>, suffix: Seq<char>) -> Option<int>
    decreases s.len(),
{
    if s.len() == 0 {
        None
    } else {
        match first_with_suffix(s.drop_last(), suffix) {
            Some(i) => Some(i),
            None => if has_suffix(s.last().name, suffix) {
                Some(s.len() - 1)
            } else {
                None
            },
        }
    }
}

proof fn lemma_first_with_suffix(s: Seq<SideView>, suffix: Seq<char>)
    ensures
        match first_with_suffix(s, suffix) {
            Some(i) => 0 <= i < s.len() && has_suffix(s[i].name, suffix) && forall|j: int|
                0 <= j < i ==> !has_suffix((#[trigger] s[j]).name, suffix),
            None => forall|j: int| 0 <= j < s.len() ==> !has_suffix((#[trigger] s[j]).name, suffix),
        },
    decreases s.len(),
{
    if s.len() > 0 {
        let t = s.drop_last();
        lemma_first_with_suffix(t, suffix);
        match first_with_suffix(t, suffix) {
            Some(i) => {
                assert(s[i] == t[i]);
                assert forall|j: int| 0 <= j < i implies !has_suffix(
                    (#[trigger] s[j]).name,
                    suffix,
                ) by {
                    assert(!has_suffix(t[j].name, suffix));
                }
            },
            None => {
                assert forall|j: int| 0 <= j < s.len() - 1 implies !has_suffix(
                    (#[trigger] s[j]).name,
                    suffix,
                ) by {
                    assert(!has_suffix(t[j].name, suffix));
                }
            },
        }
    }
}

/// The name of the string column that the side columns belong to.
pub open spec fn string_base(s: Seq<SideView>) -> Option<Seq<char>> {
    match first_with_suffix(s, STRING_CHARS_SUFFIX@) {
        Some(i) => Some(s[i].name.take(s[i].name.len() - STRING_CHARS_SUFFIX@.len())),
        None => None,
    }
}

/// Position of the first side column of characters.
fn find_chars(sides: &Vec<SideColumn>) -> (r: Option<usize>)
    ensures
        match r {
            Some(i) => i < sides@.len() && first_with_suffix(
                sides_view(sides@),
                STRING_CHARS_SUFFIX@,
            ) == Some(i as int),
            None => first_with_suffix(sides_view(sides@), STRING_CHARS_SUFFIX@) is None,
        },
{
    let ghost views = sides_view(sides@);
    proof {
        lemma_first_with_suffix(views, STRING_CHARS_SUFFIX@);
    }
    let mut i: usize = 0;
    while i < sides.len()
        invariant
            i <= sides@.len(),
            views == sides_view(sides@),
            forall|j: int|
                0 <= j < i ==> !has_suffix((#[trigger] views[j]).name, STRING_CHARS_SUFFIX@),
            match first_with_suffix(views, STRING_CHARS_SUFFIX@) {
                Some(k) => 0 <= k < views.len() && has_suffix(views[k].name, STRING_CHARS_SUFFIX@)
                    && forall|j: int|
                    0 <= j < k ==> !has_suffix((#[trigger] views[j]).name, STRING_CHARS_SUFFIX@),
                None => forall|j: int|
                    0 <= j < views.len() ==> !has_suffix(
                        (#[trigger] views[j]).name,
                        STRING_CHARS_SUFFIX@,
                    ),
            },
        decreases sides@.len() - i,
    {
        assert(views[i as int] == sides@[i as int]@);
        match without_suffix(sides[i].field.name.as_str(), STRING_CHARS_SUFFIX) {
            Some(_) => return Some(i),
            None => {},
        }
        i = i + 1;
    }
    None
}

/// The name of the string column that the side columns belong to: that of the
/// first side column of characters, without its suffix.
pub fn find_string_column_base_name(sides: &Vec<SideColumn>) -> (r: Option<String>)
    ensures
        match (r, string_base(sides_view(sides@))) {
            (Some(b), Some(v)) => b@ == v,
            (None, None) => true,
            _ => false,
        },
{
    proof {
        lemma_first_with_suffix(sides_view(sides@), STRING_CHARS_SUFFIX@);
    }
    match find_chars(sides) {
        Some(i) => {
            assert(sides_view(sides@)[i as int] == sides@[i as int]@);
            without_suffix(sides[i].field.name.as_str(), STRING_CHARS_SUFFIX)
        },
        None => None,
    }
}

/// Position of the first side column with the given name.
pub open spec fn side_index(s: Seq<SideView>, name: Seq<char>) -> Option<int>
    decreases s.len(),
{
    if s.len() == 0 {
        None
    } else {
        match side_index(s.drop_last(), name) {
            Some(i) => Some(i),
            None => if s.last().name == name {
                Some(s.len() - 1)
            } else {
                None
            },
        }
    }
}

proof fn lemma_side_index(s: Seq<SideView>, name: Seq<char>)
    ensures
        match side_index(s, name) {
            Some(i) => 0 <= i < s.len() && s[i].name == name && forall|j: int|
                0 <= j < i ==> (#[trigger] s[j]).name != name,
            None => forall|j: int| 0 <= j < s.len() ==> (#[trigger] s[j]).name != name,
        },
    decreases s.len(),
{
    if s.len() > 0 {
        let t = s.drop_last();
        lemma_side_index(t, name);
        match side_index(t, name) {
            Some(i) => {
                assert(s[i] == t[i]);
                assert forall|j: int| 0 <= j < i implies (#[trigger] s[j]).name != name by {
                    assert(t[j].name != name);
                }
            },
            None => {
                assert forall|j: int| 0 <= j < s.len() - 1 implies (#[trigger] s[j]).name
                    != name by {
                    assert(t[j].name != name);
                }
            },
        }
    }
}

/// The side column of `base` with the given suffix.
pub open spec fn side_named(s: Seq<SideView>, base: Seq<char>, suffix: Seq<char>) -> Option<
    SideView,
> {
    match side_index(s, base + suffix) {
        Some(i) => Some(s[i]),
        None => None,
    }
}

fn find_side<'a>(sides: &'a Vec<SideColumn>, base: &str, suffix: &str) -> (r: Option<
    &'a SideColumn,
>)
    ensures
        match (r, side_named(sides_view(sides@), base@, suffix@)) {
            (Some(x), Some(v)) => x@ == v,
            (None, None) => true,
            _ => false,
        },
{
    let ghost views = sides_view(sides@);
    let name: String = join_text(base, suffix);
    proof {
        lemma_side_index(views, name@);
    }
    let mut i: usize = 0;
    while i < sides.len()
        invariant
            i <= sides@.len(),
            views == sides_view(sides@),
            name@ == base@ + suffix@,
            forall|j: int| 0 <= j < i ==> (#[trigger] views[j]).name != name@,
            match side_index(views, name@) {
                Some(k) => 0 <= k < views.len() && views[k].name == name@ && forall|j: int|
                    0 <= j < k ==> (#[trigger] views[j]).name != name@,
                None => forall|j: int| 0 <= j < views.len() ==> (#[trigger] views[j]).name != name@,
            },
        decreases sides@.len() - i,
    {
        assert(views[i as int] == sides@[i as int]@);
        if same_text(sides[i].field.name.as_str(), name.as_str()) {
            return Some(&sides[i]);
        }
        i = i + 1;
    }
    None
}

/// The polynomials that a `LIKE` reads from its scope.
#[derive(Debug)]
pub struct LikeInputs {
    pub chars: Poly,
    pub orig_ind: Poly,
    pub int_ind: Poly,
    pub bnd: Poly,
    pub char_activator: Poly,
    pub length_field: Field,
    pub length: Poly,
    pub activator: Poly,
    /// The row numbers, when the scope carries them.
    pub row_id: Option<Poly>,
    pub char_domain: usize,
    pub str_domain: usize,
}

/// Mathematical counterpart of [`LikeInputs`].
pub struct LikeInputsView {
    pub chars: Poly,
    pub orig_ind: Poly,
    pub int_ind: Poly,
    pub bnd: Poly,
    pub char_activator: Poly,
    pub length_field: FieldView,
    pub length: Poly,
    pub activator: Poly,
    pub row_id: Option<Poly>,
    pub char_domain: usize,
    pub str_domain: usize,
}

impl LikeInputs {
    /// The inputs as a mathematical value.
    pub open spec fn view(&self) -> LikeInputsView {
        LikeInputsView {
            chars: self.chars,
            orig_ind: self.orig_ind,
            int_ind: self.int_ind,
            bnd: self.bnd,
            char_activator: self.char_activator,
            length_field: self.length_field@,
            length: self.length,
            activator: self.activator,
            row_id: self.row_id,
            char_domain: self.char_domain,
            str_domain: self.str_domain,
        }
    }
}

/// The inputs that a scope table offers, or the first one that is missing.
pub open spec fn like_inputs(scope: TableView) -> Result<LikeInputsView, LikeError> {
    match string_base(scope.side_cols) {
        None => Err(LikeError::NoStringColumn),
        Some(base) => match side_named(scope.side_cols, base, STRING_CHARS_SUFFIX@) {
            None => Err(LikeError::MissingChars),
            Some(chars) => match side_named(scope.side_cols, base, STRING_ORIG_IND_SUFFIX@) {
                None => Err(LikeError::MissingOrigInd),
                Some(orig_ind) => match side_named(scope.side_cols, base, STRING_INT_IND_SUFFIX@) {
                    None => Err(LikeError::MissingIntInd),
                    Some(int_ind) => match side_named(scope.side_cols, base, STRING_BND_SUFFIX@) {
                        None => Err(LikeError::MissingBnd),
                        Some(bnd) => match name_index(scope.cols, base + STRING_LENGTH_SUFFIX@) {
                            None => Err(LikeError::MissingLength),
                            Some(l) => match chars.activator {
                                None => Err(LikeError::MissingCharActivator),
                                Some(char_activator) => match poly_named(
                                    scope,
                                    ACTIVATOR_COL_NAME@,
                                ) {
                                    None => Err(LikeError::MissingActivator),
                                    Some(activator) => Ok(
                                        LikeInputsView {
                                            chars: chars.data,
                                            orig_ind: orig_ind.data,
                                            int_ind: int_ind.data,
                                            bnd: bnd.data,
                                            char_activator,
                                            length_field: scope.cols[l].field,
                                            length: scope.cols[l].poly,
                                            activator,
                                            row_id: poly_named(scope, ROW_ID_COL_NAME@),
                                            char_domain: chars.data.log_size,
                                            str_domain: scope.log_size,
                                        },
                                    ),
                                },
                            },
                        },
                    },
                },
            },
        },
    }
}

/// Finds the inputs that the witness of a `LIKE` is computed from.
pub fn locate_inputs(scope: &Table) -> (r: Result<LikeInputs, LikeError>)
    ensures
        match r {
            Ok(x) => like_inputs(scope@) == Ok::<LikeInputsView, LikeError>(x@),
            Err(e) => like_inputs(scope@) == Err::<LikeInputsView, LikeError>(e),
        },
{
    let base: String = match find_string_column_base_name(&scope.side_cols) {
        Some(b) => b,
        None => return Err(LikeError::NoStringColumn),
    };
    let chars = match find_side(&scope.side_cols, base.as_str(), STRING_CHARS_SUFFIX) {
        Some(s) => s,
        None => return Err(LikeError::MissingChars),
    };
    let orig_ind = match find_side(&scope.side_cols, base.as_str(), STRING_ORIG_IND_SUFFIX) {
        Some(s) => s.data,
        None => return Err(LikeError::MissingOrigInd),
    };
    let int_ind = match find_side(&scope.side_cols, base.as_str(), STRING_INT_IND_SUFFIX) {
        Some(s) => s.data,
        None => return Err(LikeError::MissingIntInd),
    };
    let bnd = match find_side(&scope.side_cols, base.as_str(), STRING_BND_SUFFIX) {
        Some(s) => s.data,
        None => return Err(LikeError::MissingBnd),
    };
    let length_name: String = join_text(base.as_str(), STRING_LENGTH_SUFFIX);
    let at: usize = match find_name(&scope.cols, length_name.as_str()) {
        Some(i) => i,
        None => return Err(LikeError::MissingLength),
    };
    let char_activator = match chars.activator {
        Some(p) => p,
        None => return Err(LikeError::MissingCharActivator),
    };
    let activator = match scope.activator() {
        Some(p) => p,
        None => return Err(LikeError::MissingActivator),
    };
    let row_id = scope.poly_by_name(ROW_ID_COL_NAME);
    Ok(
        LikeInputs {
            chars: chars.data,
            orig_ind,
            int_ind,
            bnd,
            char_activator,
            length_field: scope.cols[at].field.copy(),
            length: scope.cols[at].poly,
            activator,
            row_id,
            char_domain: chars.data.log_size,
            str_domain: scope.log_size,
        },
    )
}

// ---------------------------------------------------------------------------
// Witness columns and their order
// ---------------------------------------------------------------------------

/// Where a literal factor of a pattern has to stand.
#[derive(Debug, Clone, Copy, PartialEq, Eq, Structural)]
pub enum Mode {
    /// At the end of the string.
    Suffix,
    /// Anywhere behind the factors before it.
    Infix,
    /// Any other anchoring.
    Other,
}

/// A literal factor: its length and where it has to stand.
#[derive(Debug, Clone, Copy, PartialEq, Eq, Structural)]
pub struct Factor {
    pub len: usize,
    pub mode: Mode,
}

/// Which columns the witness of one factor consists of.
#[derive(Debug, Clone, Copy, PartialEq, Eq, Structural)]
pub struct FactorShape {
    pub rotated_chars: usize,
    pub att_mask: bool,
    pub rotated_bnd: Option<usize>,
    pub past: bool,
}

/// A column of the witness.
#[derive(Debug, Clone, Copy, PartialEq, Eq, Structural)]
pub enum WitnessColumn {
    CharActOldPrime,
    AOldPrime,
    CharActNew,
    RotatedChar(usize, usize),
    Occurs(usize),
    MatchStr(usize),
    Mark(usize),
    Start(usize),
    MatchBroadcast(usize),
    StartBroadcast(usize),
    LeftmostMask(usize),
    AttMask(usize),
    RotatedBnd(usize, usize),
    Past(usize),
    RowNumbers,
}

/// One commitment: a witness column and the size of its domain.
#[derive(Debug, Clone, Copy, PartialEq, Eq, Structural)]
pub struct Commit {
    pub column: WitnessColumn,
    pub log_size: usize,
}

/// The witness columns that the `j`-th of `count` factors needs.
pub open spec fn shape_of(factor: Factor, j: int, count: int) -> FactorShape {
    FactorShape {
        rotated_chars: factor.len,
        att_mask: factor.mode == Mode::Suffix,
        rotated_bnd: if factor.mode == Mode::Infix && factor.len >= 2 {
            Some((factor.len - 1) as usize)
        } else {
            None
        },
        past: j + 1 < count,
    }
}

/// The witness columns that the factors of a pattern need.
pub open spec fn shapes_of(factors: Seq<Factor>) -> Seq<FactorShape> {
    Seq::new(factors.len(), |j: int| shape_of(factors[j], j, factors.len() as int))
}

/// The witness columns that the factors of a pattern need.
pub fn expected_shapes(factors: &Vec<Factor>) -> (r: Vec<FactorShape>)
    ensures
        r@ == shapes_of(factors@),
{
    let mut out: Vec<FactorShape> = Vec::new();
    let mut j: usize = 0;
    while j < factors.len()
        invariant
            j <= factors@.len(),
            out@.len() == j,
            forall|i: int|
                0 <= i < j ==> #[trigger] out@[i] == shape_of(
                    factors@[i],
                    i,
                    factors@.len() as int,
                ),
        decreases factors@.len() - j,
    {
        let f = factors[j];
        let rotated_bnd = if f.mode == Mode::Infix && f.len >= 2 {
            Some(f.len - 1)
        } else {
            None
        };
        out.push(
            FactorShape {
                rotated_chars: f.len,
                att_mask: f.mode == Mode::Suffix,
                rotated_bnd,
                past: j < factors.len() - 1,
            },
        );
        j = j + 1;
    }
    assert(out@ =~= shapes_of(factors@));
    out
}

/// The columns at shifts `from..from + n` of the characters of factor `j`.
pub open spec fn rotated_commits(j: usize, n: nat, log_size: usize) -> Seq<Commit> {
    Seq::new(
        n,
        |d: int| Commit { column: WitnessColumn::RotatedChar(j, d as usize), log_size },
    )
}

/// The shifted boundary columns of factor `j`, from shift one on.
pub open spec fn boundary_commits(j: usize, n: nat, log_size: usize) -> Seq<Commit> {
    Seq::new(
        n,
        |d: int| Commit { column: WitnessColumn::RotatedBnd(j, (d + 1) as usize), log_size },
    )
}

/// The commitments of factor `j`, in order.
pub open spec fn factor_commits(j: usize, f: FactorShape, cd: usize, sd: usize) -> Seq<Commit> {
    rotated_commits(j, f.rotated_chars as nat, cd) + seq![
        Commit { column: WitnessColumn::Occurs(j), log_size: cd },
        Commit { column: WitnessColumn::MatchStr(j), log_size: sd },
        Commit { column: WitnessColumn::Mark(j), log_size: cd },
        Commit { column: WitnessColumn::Start(j), log_size: sd },
        Commit { column: WitnessColumn::MatchBroadcast(j), log_size: cd },
        Commit { column: WitnessColumn::StartBroadcast(j), log_size: cd },
        Commit { column: WitnessColumn::LeftmostMask(j), log_size: cd },
    ] + (if f.att_mask {
        seq![Commit { column: WitnessColumn::AttMask(j), log_size: cd }]
    } else {
        Seq::empty()
    }) + (match f.rotated_bnd {
        Some(n) => boundary_commits(j, n as nat, cd),
        None => Seq::empty(),
    }) + (if f.past {
        seq![Commit { column: WitnessColumn::Past(j), log_size: cd }]
    } else {
        Seq::empty()
    })
}

/// The commitments in front of factor `j`.
pub open spec fn commits_before(shapes: Seq<FactorShape>, j: nat, cd: usize, sd: usize) -> Seq<
    Commit,
>
    decreases j,
{
    if j == 0 {
        seq![
            Commit { column: WitnessColumn::CharActOldPrime, log_size: cd },
            Commit { column: WitnessColumn::AOldPrime, log_size: sd },
            Commit { column: WitnessColumn::CharActNew, log_size: cd },
        ]
    } else {
        commits_before(shapes, (j - 1) as nat, cd, sd) + factor_commits(
            (j - 1) as usize,
            shapes[j - 1],
            cd,
            sd,
        )
    }
}

/// All commitments behind that of the output column, in order: those of the
/// length filter, those of each factor, and the row numbers when the scope
/// carries none.
pub open spec fn like_commits(
    shapes: Seq<FactorShape>,
    has_row_id: bool,
    cd: usize,
    sd: usize,
) -> Seq<Commit> {
    let all = commits_before(shapes, shapes.len(), cd, sd);
    if has_row_id {
        all
    } else {
        all.push(Commit { column: WitnessColumn::RowNumbers, log_size: sd })
    }
}

fn push_factor(commits: &mut Vec<Commit>, j: usize, f: FactorShape, cd: usize, sd: usize)
    ensures
        final(commits)@ == old(commits)@ + factor_commits(j, f, cd, sd),
{
    let ghost start = commits@;
    let mut d: usize = 0;
    while d < f.rotated_chars
        invariant
            d <= f.rotated_chars,
            commits@ == start + rotated_commits(j, d as nat, cd),
        decreases f.rotated_chars - d,
    {
        commits.push(Commit { column: WitnessColumn::RotatedChar(j, d), log_size: cd });
        d = d + 1;
        assert(commits@ =~= start + rotated_commits(j, d as nat, cd));
    }
    let ghost rotated = commits@;
    commits.push(Commit { column: WitnessColumn::Occurs(j), log_size: cd });
    commits.push(Commit { column: WitnessColumn::MatchStr(j), log_size: sd });
    commits.push(Commit { column: WitnessColumn::Mark(j), log_size: cd });
    commits.push(Commit { column: WitnessColumn::Start(j), log_size: sd });
    commits.push(Commit { column: WitnessColumn::MatchBroadcast(j), log_size: cd });
    commits.push(Commit { column: WitnessColumn::StartBroadcast(j), log_size: cd });
    commits.push(Commit { column: WitnessColumn::LeftmostMask(j), log_size: cd });
    if f.att_mask {
        commits.push(Commit { column: WitnessColumn::AttMask(j), log_size: cd });
    }
    let ghost masked = commits@;
    match f.rotated_bnd {
        Some(n) => {
            let mut e: usize = 0;
            assert(commits@ =~= masked + boundary_commits(j, 0, cd));
            while e < n
                invariant
                    e <= n,
                    commits@ == masked + boundary_commits(j, e as nat, cd),
                decreases n - e,
            {
                commits.push(Commit { column: WitnessColumn::RotatedBnd(j, e + 1), log_size: cd });
                e = e + 1;
                assert(commits@ =~= masked + boundary_commits(j, e as nat, cd));
            }
        },
        None => {},
    }
    if f.past {
        commits.push(Commit { column: WitnessColumn::Past(j), log_size: cd });
    }
    assert(commits@ =~= start + factor_commits(j, f, cd, sd));
}

// ---------------------------------------------------------------------------
// Payload of the gadget
// ---------------------------------------------------------------------------

/// Role of a table among those of one factor.
#[derive(Debug, Clone, Copy, PartialEq, Eq, Structural)]
pub enum FactorRole {
    RotatedChar,
    Occurs,
    Match,
    Mark,
    Start,
    MatchBroadcast,
    StartBroadcast,
    LeftmostMask,
    AttMask,
    RotatedBnd,
    Past,
}

/// Place of a table in the payload of the pattern-matching gadget.
#[derive(Debug, Clone, Copy, PartialEq, Eq, Structural)]
pub enum McpmLabel {
    CharInput,
    StrInput,
    LengthFilteredChar,
    LengthFilteredStr,
    NewChar,
    NewStr,
    Factor(usize, FactorRole),
}

/// What a list of labelled tables stands for.
pub open spec fn payload_view(s: Seq<(McpmLabel, Table)>) -> Seq<(McpmLabel, TableView)> {
    Seq::new(s.len(), |i: int| (s[i].0, s[i].1@))
}

/// A table of one column.
pub open spec fn single_table(
    name: Seq<char>,
    data_type: TypeView,
    poly: Poly,
    log_size: usize,
) -> TableView {
    table_of(seq![ColView { field: plain_field(name, data_type, false), poly }], log_size)
}

/// A table of one column of truth values.
pub open spec fn bool_table(poly: Poly, log_size: usize) -> TableView {
    single_table("data"@, TypeView::Boolean, poly, log_size)
}

fn make_single(name: &str, data_type: DataType, poly: Poly, log_size: usize) -> (r: Table)
    ensures
        r@ == single_table(name@, data_type@, poly, log_size),
{
    let field = Field::new(name, data_type, false);
    let col = TrackedColumn { field, poly };
    let mut cols: Vec<TrackedColumn> = Vec::new();
    cols.push(col);
    assert(cols_view(cols@) =~= seq![col@]);
    Table::of(cols, log_size)
}

fn make_bool(poly: Poly, log_size: usize) -> (r: Table)
    ensures
        r@ == bool_table(poly, log_size),
{
    make_single("data", DataType::Boolean, poly, log_size)
}

/// Consecutive columns `prefix` followed by a number, from `first` on.
pub open spec fn numbered_cols(
    prefix: Seq<char>,
    first: nat,
    n: nat,
    base: int,
    tracker: usize,
    log_size: usize,
) -> Seq<ColView> {
    Seq::new(
        n,
        |d: int|
            ColView {
                field: plain_field(
                    prefix + decimal((first + d) as nat),
                    TypeView::UInt64,
                    false,
                ),
                poly: Poly { id: PolyId::Numbered((base + d) as usize), tracker, log_size },
            },
    )
}

fn make_numbered(
    prefix: &str,
    first: usize,
    n: usize,
    base: usize,
    tracker: usize,
    log_size: usize,
) -> (r: Table)
    requires
        first + n <= usize::MAX,
        base + n <= usize::MAX,
    ensures
        r@ == table_of(
            numbered_cols(prefix@, first as nat, n as nat, base as int, tracker, log_size),
            log_size,
        ),
{
    let mut cols: Vec<TrackedColumn> = Vec::new();
    let mut d: usize = 0;
    while d < n
        invariant
            d <= n,
            first + n <= usize::MAX,
            base + n <= usize::MAX,
            cols_view(cols@) == numbered_cols(
                prefix@,
                first as nat,
                d as nat,
                base as int,
                tracker,
                log_size,
            ),
        decreases n - d,
    {
        let ghost before = cols_view(cols@);
        let number: String = decimal_text(first + d);
        let name: String = join_text(prefix, number.as_str());
        let col = TrackedColumn {
            field: Field::new(name.as_str(), DataType::UInt64, false),
            poly: Poly { id: PolyId::Numbered(base + d), tracker, log_size },
        };
        cols.push(col);
        assert(cols_view(cols@) =~= before.push(col@));
        d = d + 1;
        assert(cols_view(cols@) =~= numbered_cols(
            prefix@,
            first as nat,
            d as nat,
            base as int,
            tracker,
            log_size,
        ));
    }
    assert(cols_view(cols@) =~= numbered_cols(
        prefix@,
        first as nat,
        n as nat,
        base as int,
        tracker,
        log_size,
    ));
    Table::of(cols, log_size)
}

/// The tables of factor `j`, whose first commitment has the identifier `base`.
pub open spec fn factor_tables(
    j: usize,
    f: FactorShape,
    base: int,
    tracker: usize,
    cd: usize,
    sd: usize,
) -> Seq<(McpmLabel, TableView)> {
    let at = base + f.rotated_chars;
    let on_chars = |k: int| Poly { id: PolyId::Numbered((at + k) as usize), tracker, log_size: cd };
    let on_strs = |k: int| Poly { id: PolyId::Numbered((at + k) as usize), tracker, log_size: sd };
    let bnd_at = at + 7 + (if f.att_mask {
        1int
    } else {
        0int
    });
    let past_at = bnd_at + (match f.rotated_bnd {
        Some(n) => n as int,
        None => 0int,
    });
    seq![
        (
            McpmLabel::Factor(j, FactorRole::RotatedChar),
            table_of(numbered_cols("char_"@, 0, f.rotated_chars as nat, base, tracker, cd), cd),
        ),
        (McpmLabel::Factor(j, FactorRole::Occurs), bool_table(on_chars(0), cd)),
        (McpmLabel::Factor(j, FactorRole::Match), bool_table(on_strs(1), sd)),
        (McpmLabel::Factor(j, FactorRole::Mark), bool_table(on_chars(2), cd)),
        (
            McpmLabel::Factor(j, FactorRole::Start),
            single_table("start"@, TypeView::UInt64, on_strs(3), sd),
        ),
        (
            McpmLabel::Factor(j, FactorRole::MatchBroadcast),
            single_table("match_prime"@, TypeView::UInt64, on_chars(4), cd),
        ),
        (
            McpmLabel::Factor(j, FactorRole::StartBroadcast),
            single_table("start_broadcast"@, TypeView::UInt64, on_chars(5), cd),
        ),
        (
            McpmLabel::Factor(j, FactorRole::LeftmostMask),
            single_table("leftmost_mask"@, TypeView::UInt64, on_chars(6), cd),
        ),
    ] + (if f.att_mask {
        seq![
            (
                McpmLabel::Factor(j, FactorRole::AttMask),
                single_table("att_mask"@, TypeView::UInt64, on_chars(7), cd),
            ),
        ]
    } else {
        Seq::empty()
    }) + (match f.rotated_bnd {
        Some(n) => seq![
            (
                McpmLabel::Factor(j, FactorRole::RotatedBnd),
                table_of(numbered_cols("bnd_"@, 1, n as nat, bnd_at, tracker, cd), cd),
            ),
        ],
        None => Seq::empty(),
    }) + (if f.past {
        seq![
            (
                McpmLabel::Factor(j, FactorRole::Past),
                single_table(
                    "past"@,
                    TypeView::UInt64,
                    Poly { id: PolyId::Numbered(past_at as usize), tracker, log_size: cd },
                    cd,
                ),
            ),
        ]
    } else {
        Seq::empty()
    })
}

fn push_table(payload: &mut Vec<(McpmLabel, Table)>, label: McpmLabel, table: Table)
    ensures
        payload_view(final(payload)@) == payload_view(old(payload)@).push((label, table@)),
{
    let ghost before = payload_view(payload@);
    payload.push((label, table));
    assert(payload_view(payload@) =~= before.push((label, table@)));
}

fn push_factor_tables(
    payload: &mut Vec<(McpmLabel, Table)>,
    j: usize,
    f: FactorShape,
    base: usize,
    tracker: usize,
    cd: usize,
    sd: usize,
)
    requires
        base + factor_commits(j, f, cd, sd).len() <= usize::MAX,
    ensures
        payload_view(final(payload)@) == payload_view(old(payload)@) + factor_tables(
            j,
            f,
            base as int,
            tracker,
            cd,
            sd,
        ),
{
    let ghost start = payload_view(payload@);
    let at: usize = base + f.rotated_chars;
    push_table(
        payload,
        McpmLabel::Factor(j, FactorRole::RotatedChar),
        make_numbered("char_", 0, f.rotated_chars, base, tracker, cd),
    );
    push_table(
        payload,
        McpmLabel::Factor(j, FactorRole::Occurs),
        make_bool(Poly { id: PolyId::Numbered(at), tracker, log_size: cd }, cd),
    );
    push_table(
        payload,
        McpmLabel::Factor(j, FactorRole::Match),
        make_bool(Poly { id: PolyId::Numbered(at + 1), tracker, log_size: sd }, sd),
    );
    push_table(
        payload,
        McpmLabel::Factor(j, FactorRole::Mark),
        make_bool(Poly { id: PolyId::Numbered(at + 2), tracker, log_size: cd }, cd),
    );
    push_table(
        payload,
        McpmLabel::Factor(j, FactorRole::Start),
        make_single(
            "start",
            DataType::UInt64,
            Poly { id: PolyId::Numbered(at + 3), tracker, log_size: sd },
            sd,
        ),
    );
    push_table(
        payload,
        McpmLabel::Factor(j, FactorRole::MatchBroadcast),
        make_single(
            "match_prime",
            DataType::UInt64,
            Poly { id: PolyId::Numbered(at + 4), tracker, log_size: cd },
            cd,
        ),
    );
    push_table(
        payload,
        McpmLabel::Factor(j, FactorRole::StartBroadcast),
        make_single(
            "start_broadcast",
            DataType::UInt64,
            Poly { id: PolyId::Numbered(at + 5), tracker, log_size: cd },
            cd,
        ),
    );
    push_table(
        payload,
        McpmLabel::Factor(j, FactorRole::LeftmostMask),
        make_single(
            "leftmost_mask",
            DataType::UInt64,
            Poly { id: PolyId::Numbered(at + 6), tracker, log_size: cd },
            cd,
        ),
    );
    let mut next: usize = at + 7;
    if f.att_mask {
        push_table(
            payload,
            McpmLabel::Factor(j, FactorRole::AttMask),
            make_single(
                "att_mask",
                DataType::UInt64,
                Poly { id: PolyId::Numbered(next), tracker, log_size: cd },
                cd,
            ),
        );
        next = next + 1;
    }
    match f.rotated_bnd {
        Some(n) => {
            push_table(
                payload,
                McpmLabel::Factor(j, FactorRole::RotatedBnd),
                make_numbered("bnd_", 1, n, next, tracker, cd),
            );
            next = next + n;
        },
        None => {},
    }
    if f.past {
        push_table(
            payload,
            McpmLabel::Factor(j, FactorRole::Past),
            make_single(
                "past",
                DataType::UInt64,
                Poly { id: PolyId::Numbered(next), tracker, log_size: cd },
                cd,
            ),
        );
    }
    assert(payload_view(payload@) =~= start + factor_tables(
        j,
        f,
        base as int,
        tracker,
        cd,
        sd,
    ));
}

/// Everything that a `LIKE` commits and hands on.
#[derive(Debug)]
pub struct LikeWiring {
    /// The commitments behind that of the output column, in order; the `k`-th
    /// gets the `k`-th free identifier.
    pub commits: Vec<Commit>,
    /// Payload of the pattern-matching gadget.
    pub payload: Vec<(McpmLabel, Table)>,
    /// Payload of the expression itself.
    pub output: Table,
}

/// The characters with their places and boundaries.
pub open spec fn char_input_table(x: LikeInputsView) -> TableView {
    let fields = seq![
        plain_field("char"@, TypeView::UInt64, false),
        plain_field("orig_ind"@, TypeView::UInt64, false),
        plain_field("int_ind"@, TypeView::UInt64, false),
        plain_field("bnd"@, TypeView::UInt64, false),
    ];
    TableView {
        schema: Some(plain_schema(fields)),
        cols: seq![
            ColView { field: fields[0], poly: x.chars },
            ColView { field: fields[1], poly: x.orig_ind },
            ColView { field: fields[2], poly: x.int_ind },
            ColView { field: fields[3], poly: x.bnd },
            ColView { field: activator_field_view(), poly: x.char_activator },
        ],
        side_cols: Seq::empty(),
        log_size: x.char_domain,
    }
}

/// The strings: their row numbers, lengths and activator.
pub open spec fn str_input_table(x: LikeInputsView, ind: Poly) -> TableView {
    let ind_field = plain_field("ind"@, TypeView::UInt64, false);
    TableView {
        schema: Some(plain_schema(seq![ind_field, x.length_field])),
        cols: cols_insert(
            cols_insert(seq![ColView { field: ind_field, poly: ind }], x.length_field, x.length),
            activator_field_view(),
            x.activator,
        ),
        side_cols: Seq::empty(),
        log_size: x.str_domain,
    }
}

/// The tables of the factors in front of factor `j`.
pub open spec fn tables_before(
    shapes: Seq<FactorShape>,
    j: nat,
    next_id: int,
    tracker: usize,
    cd: usize,
    sd: usize,
) -> Seq<(McpmLabel, TableView)>
    decreases j,
{
    if j == 0 {
        Seq::empty()
    } else {
        tables_before(shapes, (j - 1) as nat, next_id, tracker, cd, sd) + factor_tables(
            (j - 1) as usize,
            shapes[j - 1],
            next_id + commits_before(shapes, (j - 1) as nat, cd, sd).len(),
            tracker,
            cd,
            sd,
        )
    }
}

/// The payload of the pattern-matching gadget, when the commitments get the
/// identifiers from `next_id` on.
pub open spec fn like_payload(
    x: LikeInputsView,
    shapes: Seq<FactorShape>,
    a_new: Poly,
    next_id: int,
) -> Seq<(McpmLabel, TableView)> {
    let tracker = x.chars.tracker;
    let cd = x.char_domain;
    let sd = x.str_domain;
    let ind = match x.row_id {
        Some(p) => p,
        None => Poly {
            id: PolyId::Numbered(
                (next_id + commits_before(shapes, shapes.len(), cd, sd).len()) as usize,
            ),
            tracker,
            log_size: sd,
        },
    };
    seq![
        (McpmLabel::CharInput, char_input_table(x)),
        (McpmLabel::StrInput, str_input_table(x, ind)),
        (
            McpmLabel::LengthFilteredChar,
            bool_table(Poly { id: PolyId::Numbered(next_id as usize), tracker, log_size: cd }, cd),
        ),
        (
            McpmLabel::LengthFilteredStr,
            bool_table(Poly { id: PolyId::Numbered((next_id + 1) as usize), tracker, log_size: sd }, sd),
        ),
        (
            McpmLabel::NewChar,
            bool_table(Poly { id: PolyId::Numbered((next_id + 2) as usize), tracker, log_size: cd }, cd),
        ),
        (McpmLabel::NewStr, bool_table(a_new, sd)),
    ] + tables_before(shapes, shapes.len(), next_id, tracker, cd, sd)
}

/// The columns of the expression's own payload: the output, then the activator
/// and the row numbers of the scope where it has them.
pub open spec fn like_output_cols(scope: TableView, field: FieldView, a_new: Poly) -> Seq<ColView> {
    let first = seq![ColView { field, poly: a_new }];
    let second = match poly_named(scope, ACTIVATOR_COL_NAME@) {
        Some(p) => cols_insert(first, activator_field_view(), p),
        None => first,
    };
    match name_index(scope.cols, ROW_ID_COL_NAME@) {
        Some(i) => cols_insert(second, scope.cols[i].field, scope.cols[i].poly),
        None => second,
    }
}

/// The expression's own payload around its output polynomial.
pub fn output_table(scope: &Table, field: &Field, a_new: Poly) -> (r: Table)
    ensures
        r@ == table_of(like_output_cols(scope@, field@, a_new), scope.log_size),
{
    let mut cols: Vec<TrackedColumn> = Vec::new();
    let first = TrackedColumn { field: field.copy(), poly: a_new };
    cols.push(first);
    assert(cols_view(cols@) =~= seq![ColView { field: field@, poly: a_new }]);
    match scope.activator() {
        Some(p) => {
            insert_col(&mut cols, activator_field(), p);
        },
        None => {},
    }
    match find_name(&scope.cols, ROW_ID_COL_NAME) {
        Some(i) => {
            insert_col(&mut cols, scope.cols[i].field.copy(), scope.cols[i].poly);
        },
        None => {},
    }
    Table::of(cols, scope.log_size)
}

/// The constant one over the rows of a scope, under the tracker of the scope's
/// activator.
pub open spec fn constant_one(scope: TableView, activator: Poly) -> Poly {
    Poly { id: PolyId::One, tracker: activator.tracker, log_size: scope.log_size }
}

/// A pattern without literal factors matches every row: its output is the
/// constant one.
pub fn wildcard_output(scope: &Table, field: &Field) -> (r: Result<Table, LikeError>)
    ensures
        match (r, poly_named(scope@, ACTIVATOR_COL_NAME@)) {
            (Ok(t), Some(p)) => t@ == table_of(
                like_output_cols(scope@, field@, constant_one(scope@, p)),
                scope.log_size,
            ),
            (Err(e), None) => e == LikeError::MissingActivator,
            _ => false,
        },
{
    match scope.activator() {
        Some(p) => {
            let one = Poly { id: PolyId::One, tracker: p.tracker, log_size: scope.log_size };
            Ok(output_table(scope, field, one))
        },
        None => Err(LikeError::MissingActivator),
    }
}

/// What a `LIKE` puts out before its gadget is wired.
#[derive(Debug)]
pub struct LikeWitness {
    /// Whether the output column is committed, under the first free identifier.
    pub committed: bool,
    /// Payload of the expression.
    pub output: Table,
}

/// The tracker that the output column belongs to. The prover computes the
/// column and needs every input; the verifier only needs the characters.
pub open spec fn output_tracker(scope: TableView, party: Party) -> Result<usize, LikeError> {
    match party {
        Party::Prover => match like_inputs(scope) {
            Ok(x) => Ok(x.chars.tracker),
            Err(e) => Err(e),
        },
        Party::Verifier => match first_with_suffix(scope.side_cols, STRING_CHARS_SUFFIX@) {
            Some(i) => Ok(scope.side_cols[i].data.tracker),
            None => Err(LikeError::NoStringColumn),
        },
    }
}

/// The output column of a `LIKE` whose pattern has this many literal factors:
/// whether it is committed, and its polynomial. A pattern without literal
/// factors matches every row, and its output is the constant one.
pub open spec fn like_column(
    scope: TableView,
    factors: nat,
    next_id: usize,
    party: Party,
) -> Result<(bool, Poly), LikeError> {
    if factors == 0 {
        match poly_named(scope, ACTIVATOR_COL_NAME@) {
            Some(p) => Ok((false, constant_one(scope, p))),
            None => Err(LikeError::MissingActivator),
        }
    } else {
        match output_tracker(scope, party) {
            Ok(tracker) => Ok(
                (true, Poly { id: PolyId::Numbered(next_id), tracker, log_size: scope.log_size }),
            ),
            Err(e) => Err(e),
        }
    }
}

/// What a `LIKE` puts out before its gadget is wired, so that the nodes above
/// it find its output. `next_id` is the first free identifier.
pub fn add_virtual_witness(
    scope: &Table,
    field: &Field,
    factors: usize,
    next_id: usize,
    party: Party,
) -> (r: Result<LikeWitness, LikeError>)
    ensures
        match (r, like_column(scope@, factors as nat, next_id, party)) {
            (Ok(w), Ok((committed, p))) => w.committed == committed && w.output@ == table_of(
                like_output_cols(scope@, field@, p),
                scope.log_size,
            ),
            (Err(e), Err(f)) => e == f,
            _ => false,
        },
{
    if factors == 0 {
        return match wildcard_output(scope, field) {
            Ok(output) => Ok(LikeWitness { committed: false, output }),
            Err(e) => Err(e),
        };
    }
    let tracker: usize = match party {
        Party::Prover => match locate_inputs(scope) {
            Ok(x) => x.chars.tracker,
            Err(e) => return Err(e),
        },
        Party::Verifier => match find_chars(&scope.side_cols) {
            Some(i) => {
                assert(sides_view(scope.side_cols@)[i as int] == scope.side_cols@[i as int]@);
                scope.side_cols[i].data.tracker
            },
            None => return Err(LikeError::NoStringColumn),
        },
    };
    let a_new = Poly { id: PolyId::Numbered(next_id), tracker, log_size: scope.log_size };
    Ok(LikeWitness { committed: true, output: output_table(scope, field, a_new) })
}

/// Where the prover puts a column out, the verifier puts out the same one.
pub proof fn verifier_follows_the_prover(scope: TableView, factors: nat, next_id: usize)
    requires
        like_column(scope, factors, next_id, Party::Prover) is Ok,
    ensures
        like_column(scope, factors, next_id, Party::Verifier) == like_column(
            scope,
            factors,
            next_id,
            Party::Prover,
        ),
{
    let sides = scope.side_cols;
    let suffix = STRING_CHARS_SUFFIX@;
    lemma_first_with_suffix(sides, suffix);
    match first_with_suffix(sides, suffix) {
        Some(i) => {
            let base = sides[i].name.take(sides[i].name.len() - suffix.len());
            assert(base + suffix =~= sides[i].name);
            lemma_side_index(sides, base + suffix);
            match side_index(sides, base + suffix) {
                Some(k) => {
                    assert(k <= i);
                    assert(has_suffix(sides[k].name, suffix));
                },
                None => {
                    assert(sides[i].name != base + suffix);
                },
            }
        },
        None => {},
    }
}

/// The names of system columns differ from that of every `LIKE`.
proof fn lemma_like_name_is_no_system_name(input: ExprView, pattern: ExprView)
    ensures
        like_output_name(input, pattern) != ACTIVATOR_COL_NAME@,
        like_output_name(input, pattern) != ROW_ID_COL_NAME@,
{
    reveal_strlit("__activator__");
    reveal_strlit("__row_id__");
    reveal_strlit("_LIKE_");
    let name = like_output_name(input, pattern);
    let at = match input {
        ExprView::Column(c) => c.name.len(),
        _ => "expr"@.len(),
    } + 3;
    assert(name[at as int] == 'K');
    if name == ACTIVATOR_COL_NAME@ {
        assert(ACTIVATOR_COL_NAME@.len() == 13);
        assert(ACTIVATOR_COL_NAME@[at as int] != 'K');
    }
    if name == ROW_ID_COL_NAME@ {
        assert(ROW_ID_COL_NAME@.len() == 10);
        assert(ROW_ID_COL_NAME@[at as int] != 'K');
    }
}

/// The output column is found again, under its name, in the payload that it
/// was put into: the wiring of the gadget starts from the column that the
/// nodes above the expression have seen.
pub proof fn output_is_found_again(
    scope: TableView,
    input: ExprView,
    pattern: ExprView,
    a_new: Poly,
    log_size: usize,
)
    ensures
        poly_named(
            table_of(like_output_cols(scope, like_output_field(input, pattern), a_new), log_size),
            like_output_name(input, pattern),
        ) == Some(a_new),
{
    let field = like_output_field(input, pattern);
    let name = like_output_name(input, pattern);
    lemma_like_name_is_no_system_name(input, pattern);
    let first = seq![ColView { field, poly: a_new }];
    let second = match poly_named(scope, ACTIVATOR_COL_NAME@) {
        Some(p) => cols_insert(first, activator_field_view(), p),
        None => first,
    };
    lemma_field_index(first, activator_field_view());
    assert(second[0] == first[0]);
    lemma_name_index(scope.cols, ROW_ID_COL_NAME@);
    let cols = like_output_cols(scope, field, a_new);
    match name_index(scope.cols, ROW_ID_COL_NAME@) {
        Some(i) => {
            lemma_field_index(second, scope.cols[i].field);
        },
        None => {},
    }
    assert(cols[0] == first[0]);
    lemma_name_index(cols, name);
}

fn make_char_input(x: &LikeInputs) -> (r: Table)
    ensures
        r@ == char_input_table(x@),
{
    let mut fields: Vec<Field> = Vec::new();
    fields.push(Field::new("char", DataType::UInt64, false));
    fields.push(Field::new("orig_ind", DataType::UInt64, false));
    fields.push(Field::new("int_ind", DataType::UInt64, false));
    fields.push(Field::new("bnd", DataType::UInt64, false));
    let mut cols: Vec<TrackedColumn> = Vec::new();
    cols.push(TrackedColumn { field: fields[0].copy(), poly: x.chars });
    cols.push(TrackedColumn { field: fields[1].copy(), poly: x.orig_ind });
    cols.push(TrackedColumn { field: fields[2].copy(), poly: x.int_ind });
    cols.push(TrackedColumn { field: fields[3].copy(), poly: x.bnd });
    cols.push(TrackedColumn { field: activator_field(), poly: x.char_activator });
    let r = Table {
        schema: Some(Schema { fields, metadata: Metadata::new() }),
        cols,
        side_cols: Vec::new(),
        log_size: x.char_domain,
    };
    proof {
        let want = char_input_table(x@);
        assert(fields_view(fields@) =~= want.schema->0.fields);
        assert(cols_view(cols@) =~= want.cols);
        assert(r@.side_cols =~= want.side_cols);
    }
    r
}

fn make_str_input(x: &LikeInputs, ind: Poly) -> (r: Table)
    ensures
        r@ == str_input_table(x@, ind),
{
    let mut fields: Vec<Field> = Vec::new();
    fields.push(Field::new("ind", DataType::UInt64, false));
    fields.push(x.length_field.copy());
    let mut cols: Vec<TrackedColumn> = Vec::new();
    cols.push(TrackedColumn { field: fields[0].copy(), poly: ind });
    proof {
        assert(cols_view(cols@) =~= seq![
            ColView { field: plain_field("ind"@, TypeView::UInt64, false), poly: ind },
        ]);
    }
    insert_col(&mut cols, x.length_field.copy(), x.length);
    insert_col(&mut cols, activator_field(), x.activator);
    let r = Table {
        schema: Some(Schema { fields, metadata: Metadata::new() }),
        cols,
        side_cols: Vec::new(),
        log_size: x.str_domain,
    };
    proof {
        let want = str_input_table(x@, ind);
        assert(fields_view(fields@) =~= want.schema->0.fields);
        assert(r@.side_cols =~= want.side_cols);
    }
    r
}

/// The commitments in front of a factor are no more than those of all.
proof fn lemma_commits_grow(shapes: Seq<FactorShape>, i: nat, j: nat, cd: usize, sd: usize)
    requires
        i <= j,
    ensures
        commits_before(shapes, i, cd, sd).len() <= commits_before(shapes, j, cd, sd).len(),
        commits_before(shapes, i, cd, sd).len() >= 3,
    decreases j,
{
    if i < j {
        lemma_commits_grow(shapes, i, (j - 1) as nat, cd, sd);
    } else if i > 0 {
        lemma_commits_grow(shapes, (i - 1) as nat, (i - 1) as nat, cd, sd);
    }
}

fn wire(
    scope: &Table,
    x: &LikeInputs,
    shapes: &Vec<FactorShape>,
    field: &Field,
    a_new: Poly,
    next_id: usize,
) -> (r: LikeWiring)
    requires
        next_id + like_commits(shapes@, x.row_id is Some, x.char_domain, x.str_domain).len()
            <= usize::MAX,
    ensures
        r.commits@ == like_commits(shapes@, x.row_id is Some, x.char_domain, x.str_domain),
        payload_view(r.payload@) == like_payload(x@, shapes@, a_new, next_id as int),
        r.output@ == table_of(like_output_cols(scope@, field@, a_new), scope.log_size),
{
    let cd: usize = x.char_domain;
    let sd: usize = x.str_domain;
    let tracker: usize = x.chars.tracker;
    let ghost all = commits_before(shapes@, shapes@.len(), cd, sd);
    let mut commits: Vec<Commit> = Vec::new();
    commits.push(Commit { column: WitnessColumn::CharActOldPrime, log_size: cd });
    commits.push(Commit { column: WitnessColumn::AOldPrime, log_size: sd });
    commits.push(Commit { column: WitnessColumn::CharActNew, log_size: cd });
    assert(commits@ =~= commits_before(shapes@, 0, cd, sd));
    let mut starts: Vec<usize> = Vec::new();
    let mut j: usize = 0;
    while j < shapes.len()
        invariant
            j <= shapes@.len(),
            commits@ == commits_before(shapes@, j as nat, cd, sd),
            starts@.len() == j,
            forall|i: int|
                0 <= i < j ==> #[trigger] starts@[i] == commits_before(
                    shapes@,
                    i as nat,
                    cd,
                    sd,
                ).len(),
        decreases shapes@.len() - j,
    {
        starts.push(commits.len());
        push_factor(&mut commits, j, shapes[j], cd, sd);
        j = j + 1;
    }
    let rows_at: usize = commits.len();
    let ind = match x.row_id {
        Some(p) => p,
        None => {
            commits.push(Commit { column: WitnessColumn::RowNumbers, log_size: sd });
            Poly { id: PolyId::Numbered(next_id + rows_at), tracker, log_size: sd }
        },
    };
    proof {
        lemma_commits_grow(shapes@, 0, shapes@.len(), cd, sd);
    }
    let mut payload: Vec<(McpmLabel, Table)> = Vec::new();
    assert(payload_view(payload@) =~= Seq::<(McpmLabel, TableView)>::empty());
    push_table(&mut payload, McpmLabel::CharInput, make_char_input(x));
    push_table(&mut payload, McpmLabel::StrInput, make_str_input(x, ind));
    push_table(
        &mut payload,
        McpmLabel::LengthFilteredChar,
        make_bool(Poly { id: PolyId::Numbered(next_id), tracker, log_size: cd }, cd),
    );
    push_table(
        &mut payload,
        McpmLabel::LengthFilteredStr,
        make_bool(Poly { id: PolyId::Numbered(next_id + 1), tracker, log_size: sd }, sd),
    );
    push_table(
        &mut payload,
        McpmLabel::NewChar,
        make_bool(Poly { id: PolyId::Numbered(next_id + 2), tracker, log_size: cd }, cd),
    );
    push_table(&mut payload, McpmLabel::NewStr, make_bool(a_new, sd));
    let ghost head = payload_view(payload@);
    let mut k: usize = 0;
    assert(head =~= head + tables_before(shapes@, 0, next_id as int, tracker, cd, sd));
    while k < shapes.len()
        invariant
            k <= shapes@.len(),
            all == commits_before(shapes@, shapes@.len(), cd, sd),
            next_id + all.len() <= usize::MAX,
            starts@.len() == shapes@.len(),
            forall|i: int|
                0 <= i < shapes@.len() ==> #[trigger] starts@[i] == commits_before(
                    shapes@,
                    i as nat,
                    cd,
                    sd,
                ).len(),
            payload_view(payload@) == head + tables_before(
                shapes@,
                k as nat,
                next_id as int,
                tracker,
                cd,
                sd,
            ),
        decreases shapes@.len() - k,
    {
        proof {
            lemma_commits_grow(shapes@, k as nat, shapes@.len(), cd, sd);
            lemma_commits_grow(shapes@, (k + 1) as nat, shapes@.len(), cd, sd);
            assert(starts@[k as int] == commits_before(shapes@, k as nat, cd, sd).len());
        }
        let ghost before = payload_view(payload@);
        push_factor_tables(&mut payload, k, shapes[k], next_id + starts[k], tracker, cd, sd);
        k = k + 1;
        assert(payload_view(payload@) =~= head + tables_before(
            shapes@,
            k as nat,
            next_id as int,
            tracker,
            cd,
            sd,
        ));
    }
    proof {
        assert(payload_view(payload@) =~= like_payload(x@, shapes@, a_new, next_id as int));
    }
    let output = output_table(scope, field, a_new);
    LikeWiring { commits, payload, output }
}

/// What both parties know of a `LIKE` when they wire it.
pub open spec fn like_ready(
    scope: TableView,
    own: TableView,
    field: FieldView,
) -> Result<(LikeInputsView, Poly), LikeError> {
    match like_inputs(scope) {
        Err(e) => Err(e),
        Ok(x) => match poly_named(own, field.name) {
            None => Err(LikeError::MissingOutput),
            Some(a_new) => Ok((x, a_new)),
        },
    }
}

/// Whether a wiring is the one for the given witness shape.
pub open spec fn wired(
    w: LikeWiring,
    scope: TableView,
    own: TableView,
    field: FieldView,
    shapes: Seq<FactorShape>,
    next_id: int,
) -> bool {
    like_ready(scope, own, field) matches Ok((x, a_new)) && {
        &&& w.commits@ == like_commits(shapes, x.row_id is Some, x.char_domain, x.str_domain)
        &&& payload_view(w.payload@) == like_payload(x, shapes, a_new, next_id)
        &&& w.output@ == table_of(like_output_cols(scope, field, a_new), scope.log_size)
    }
}

/// The committing side of a `LIKE`: lists the commitments for a computed
/// witness and wires them to the gadget. `own` is the payload that the output
/// column was put into before; `next_id` is the first free identifier.
pub fn commit_and_wire_prover(
    scope: &Table,
    own: &Table,
    field: &Field,
    witness: &Vec<FactorShape>,
    next_id: usize,
) -> (r: Result<LikeWiring, LikeError>)
    requires
        like_inputs(scope@) matches Ok(x) ==> next_id + like_commits(
            witness@,
            x.row_id is Some,
            x.char_domain,
            x.str_domain,
        ).len() <= usize::MAX,
    ensures
        match r {
            Ok(w) => wired(w, scope@, own@, field@, witness@, next_id as int),
            Err(e) => like_ready(scope@, own@, field@) == Err::<(LikeInputsView, Poly), LikeError>(
                e,
            ),
        },
{
    let x = match locate_inputs(scope) {
        Ok(x) => x,
        Err(e) => return Err(e),
    };
    let a_new = match own.poly_by_name(field.name.as_str()) {
        Some(p) => p,
        None => return Err(LikeError::MissingOutput),
    };
    Ok(wire(scope, &x, witness, field, a_new, next_id))
}

/// The checking side of a `LIKE`: lists the commitments that the factors of
/// the pattern call for and wires them to the gadget.
pub fn track_and_wire_verifier(
    scope: &Table,
    own: &Table,
    field: &Field,
    factors: &Vec<Factor>,
    next_id: usize,
) -> (r: Result<LikeWiring, LikeError>)
    requires
        like_inputs(scope@) matches Ok(x) ==> next_id + like_commits(
            shapes_of(factors@),
            x.row_id is Some,
            x.char_domain,
            x.str_domain,
        ).len() <= usize::MAX,
    ensures
        match r {
            Ok(w) => wired(w, scope@, own@, field@, shapes_of(factors@), next_id as int),
            Err(e) => like_ready(scope@, own@, field@) == Err::<(LikeInputsView, Poly), LikeError>(
                e,
            ),
        },
{
    let x = match locate_inputs(scope) {
        Ok(x) => x,
        Err(e) => return Err(e),
    };
    let a_new = match own.poly_by_name(field.name.as_str()) {
        Some(p) => p,
        None => return Err(LikeError::MissingOutput),
    };
    let shapes: Vec<FactorShape> = expected_shapes(factors);
    Ok(wire(scope, &x, &shapes, field, a_new, next_id))
}

/// Both parties list the same commitments in the same order and hand equal
/// payloads on, when the witness has the columns that the factors call for.
pub proof fn parties_agree(
    p: LikeWiring,
    v: LikeWiring,
    scope: TableView,
    own: TableView,
    field: FieldView,
    witness: Seq<FactorShape>,
    factors: Seq<Factor>,
    next_id: int,
)
    requires
        witness == shapes_of(factors),
        wired(p, scope, own, field, witness, next_id),
        wired(v, scope, own, field, shapes_of(factors), next_id),
    ensures
        p.commits@ == v.commits@,
        payload_view(p.payload@) == payload_view(v.payload@),
        p.output@ == v.output@,
{
}

// ---------------------------------------------------------------------------
// What the inputs and the tables of a `LIKE` are
// ---------------------------------------------------------------------------

/// Whether a polynomial is the data of a side column of the given name.
pub open spec fn is_side_data(s: Seq<SideView>, name: Seq<char>, p: Poly) -> bool {
    exists|i: int| 0 <= i < s.len() && (#[trigger] s[i]).name == name && s[i].data == p
}

/// Whether a polynomial is that of a column of the given name.
pub open spec fn is_column_data(s: Seq<ColView>, name: Seq<char>, p: Poly) -> bool {
    exists|i: int| 0 <= i < s.len() && (#[trigger] s[i]).field.name == name && s[i].poly == p
}

/// The inputs of a `LIKE` are the side columns of one string column, each under
/// its own suffix, with the lengths of that column's strings and the activator
/// and row numbers of the scope.
pub proof fn inputs_are_the_columns_of_one_string(scope: TableView)
    requires
        like_inputs(scope) is Ok,
    ensures
        string_base(scope.side_cols) is Some,
        ({
            let x = like_inputs(scope)->Ok_0;
            let base = string_base(scope.side_cols)->0;
            let sides = scope.side_cols;
            &&& is_side_data(sides, base + "__chars"@, x.chars)
            &&& is_side_data(sides, base + "__orig_ind"@, x.orig_ind)
            &&& is_side_data(sides, base + "__int_ind"@, x.int_ind)
            &&& is_side_data(sides, base + "__bnd"@, x.bnd)
            &&& exists|i: int|
                0 <= i < sides.len() && (#[trigger] sides[i]).name == base + "__chars"@
                    && sides[i].data == x.chars && sides[i].activator == Some(x.char_activator)
            &&& exists|i: int|
                0 <= i < scope.cols.len() && (#[trigger] scope.cols[i]).field.name == base
                    + "__length"@ && scope.cols[i].poly == x.length && scope.cols[i].field
                    == x.length_field
            &&& is_column_data(scope.cols, "__activator__"@, x.activator)
            &&& match x.row_id {
                Some(p) => is_column_data(scope.cols, "__row_id__"@, p),
                None => forall|i: int|
                    0 <= i < scope.cols.len() ==> (#[trigger] scope.cols[i]).field.name
                        != "__row_id__"@,
            }
            &&& x.char_domain == x.chars.log_size
            &&& x.str_domain == scope.log_size
        }),
{
    let sides = scope.side_cols;
    let base = string_base(sides)->0;
    lemma_side_index(sides, base + STRING_CHARS_SUFFIX@);
    lemma_side_index(sides, base + STRING_ORIG_IND_SUFFIX@);
    lemma_side_index(sides, base + STRING_INT_IND_SUFFIX@);
    lemma_side_index(sides, base + STRING_BND_SUFFIX@);
    lemma_name_index(scope.cols, base + STRING_LENGTH_SUFFIX@);
    lemma_name_index(scope.cols, ACTIVATOR_COL_NAME@);
    lemma_name_index(scope.cols, ROW_ID_COL_NAME@);
}

/// The string column of a `LIKE` is the one whose characters are the first side
/// column of characters.
pub proof fn the_string_is_that_of_the_first_characters(s: Seq<SideView>)
    ensures
        match string_base(s) {
            Some(base) => exists|i: int|
                0 <= i < s.len() && (#[trigger] s[i]).name == base + "__chars"@ && forall|j: int|
                    0 <= j < i ==> !has_suffix((#[trigger] s[j]).name, "__chars"@),
            None => forall|j: int| 0 <= j < s.len() ==> !has_suffix((#[trigger] s[j]).name, "__chars"@),
        },
{
    let suffix = STRING_CHARS_SUFFIX@;
    lemma_first_with_suffix(s, suffix);
    match first_with_suffix(s, suffix) {
        Some(i) => {
            let base = string_base(s)->0;
            assert(base + suffix =~= s[i].name);
        },
        None => {},
    }
}

/// The pattern-matching gadget gets the characters, their rows, their places and
/// their boundaries each under its own name, over the domain of the characters.
pub proof fn characters_are_handed_on_under_their_names(
    x: LikeInputsView,
    shapes: Seq<FactorShape>,
    a_new: Poly,
    next_id: int,
)
    ensures
        ({
            let p = like_payload(x, shapes, a_new, next_id);
            let t = p[0].1;
            &&& p.len() >= 6
            &&& p[0].0 == McpmLabel::CharInput
            &&& is_column_data(t.cols, "char"@, x.chars)
            &&& is_column_data(t.cols, "orig_ind"@, x.orig_ind)
            &&& is_column_data(t.cols, "int_ind"@, x.int_ind)
            &&& is_column_data(t.cols, "bnd"@, x.bnd)
            &&& is_column_data(t.cols, "__activator__"@, x.char_activator)
            &&& t.cols.len() == 5
            &&& t.log_size == x.char_domain
            &&& p[1].0 == McpmLabel::StrInput
            &&& p[1].1.log_size == x.str_domain
            &&& x.length_field.name != "ind"@ ==> (x.row_id matches Some(ind) ==> is_column_data(
                p[1].1.cols,
                "ind"@,
                ind,
            ))
            &&& is_column_data(p[1].1.cols, "__activator__"@, x.activator)
            &&& x.length_field.name != "__activator__"@ ==> is_column_data(
                p[1].1.cols,
                x.length_field.name,
                x.length,
            )
            &&& p[5].0 == McpmLabel::NewStr
            &&& p[5].1.cols.len() == 1
            &&& p[5].1.cols[0].poly == a_new
            &&& p[5].1.log_size == x.str_domain
        }),
{
    let p = like_payload(x, shapes, a_new, next_id);
    let t = char_input_table(x);
    assert(p[0].1 == t);
    assert(t.cols[0].field.name == "char"@);
    assert(t.cols[1].field.name == "orig_ind"@);
    assert(t.cols[2].field.name == "int_ind"@);
    assert(t.cols[3].field.name == "bnd"@);
    assert(t.cols[4].field.name == "__activator__"@);
    let ind = match x.row_id {
        Some(q) => q,
        None => Poly {
            id: PolyId::Numbered(
                (next_id + commits_before(
                    shapes,
                    shapes.len(),
                    x.char_domain,
                    x.str_domain,
                ).len()) as usize,
            ),
            tracker: x.chars.tracker,
            log_size: x.str_domain,
        },
    };
    assert(p[1].1 == str_input_table(x, ind));
    lemma_insert_strings(x, p[1].1);
}

proof fn lemma_insert_strings(x: LikeInputsView, u: TableView)
    requires
        exists|ind: Poly|
            #[trigger] str_input_table(x, ind) == u && (x.row_id matches Some(p) ==> p == ind),
    ensures
        x.length_field.name != "ind"@ ==> (x.row_id matches Some(ind) ==> is_column_data(
            u.cols,
            "ind"@,
            ind,
        )),
        is_column_data(u.cols, "__activator__"@, x.activator),
        x.length_field.name != "__activator__"@ ==> is_column_data(
            u.cols,
            x.length_field.name,
            x.length,
        ),
{
    let ind = choose|ind: Poly|
        #[trigger] str_input_table(x, ind) == u && (x.row_id matches Some(p) ==> p == ind);
    let a = seq![ColView { field: plain_field("ind"@, TypeView::UInt64, false), poly: ind }];
    let b = cols_insert(a, x.length_field, x.length);
    lemma_field_index(a, x.length_field);
    lemma_field_index(b, activator_field_view());
    let c = cols_insert(b, activator_field_view(), x.activator);
    assert(u.cols == c);
    if x.length_field.name != "ind"@ {
        reveal_strlit("ind");
        reveal_strlit("__activator__");
        assert("ind"@.len() != "__activator__"@.len());
        assert(b[0] == a[0]);
        assert(c[0] == a[0]);
    }
    match field_index(b, activator_field_view()) {
        Some(i) => assert(c[i].poly == x.activator && c[i].field.name == "__activator__"@),
        None => assert(c[b.len() as int].poly == x.activator),
    }
    match field_index(a, x.length_field) {
        Some(i) => {
            assert(b[i].poly == x.length && b[i].field == x.length_field);
            if x.length_field.name != "__activator__"@ {
                assert(c[i] == b[i]);
            }
        },
        None => {
            assert(b[1].poly == x.length && b[1].field == x.length_field);
            if x.length_field.name != "__activator__"@ {
                assert(c[1] == b[1]);
            }
        },
    }
}

/// Whether a witness column is what the column at place `d` of the table of a
/// role of factor `j` has to hold.
pub open spec fn serves(column: WitnessColumn, j: usize, role: FactorRole, d: int) -> bool {
    match role {
        FactorRole::RotatedChar => column == WitnessColumn::RotatedChar(j, d as usize),
        FactorRole::Occurs => column == WitnessColumn::Occurs(j),
        FactorRole::Match => column == WitnessColumn::MatchStr(j),
        FactorRole::Mark => column == WitnessColumn::Mark(j),
        FactorRole::Start => column == WitnessColumn::Start(j),
        FactorRole::MatchBroadcast => column == WitnessColumn::MatchBroadcast(j),
        FactorRole::StartBroadcast => column == WitnessColumn::StartBroadcast(j),
        FactorRole::LeftmostMask => column == WitnessColumn::LeftmostMask(j),
        FactorRole::AttMask => column == WitnessColumn::AttMask(j),
        FactorRole::RotatedBnd => column == WitnessColumn::RotatedBnd(j, (d + 1) as usize),
        FactorRole::Past => column == WitnessColumn::Past(j),
    }
}

/// Whether a column holds a commitment of a list whose first has the identifier
/// `next_id`: the one at place `o`.
pub open spec fn holds_commit(
    p: Poly,
    commits: Seq<Commit>,
    next_id: int,
    o: int,
) -> bool {
    &&& 0 <= o < commits.len()
    &&& p.id == PolyId::Numbered((next_id + o) as usize)
    &&& p.log_size == commits[o].log_size
}

proof fn lemma_factor_tables(
    j: usize,
    f: FactorShape,
    base: int,
    tracker: usize,
    cd: usize,
    sd: usize,
    i: int,
    d: int,
) -> (o: int)
    requires
        0 <= i < factor_tables(j, f, base, tracker, cd, sd).len(),
        0 <= d < factor_tables(j, f, base, tracker, cd, sd)[i].1.cols.len(),
    ensures
        factor_tables(j, f, base, tracker, cd, sd)[i].0 matches McpmLabel::Factor(k, role) && k == j
            && holds_commit(
            factor_tables(j, f, base, tracker, cd, sd)[i].1.cols[d].poly,
            factor_commits(j, f, cd, sd),
            base,
            o,
        ) && serves(factor_commits(j, f, cd, sd)[o].column, j, role, d),
        factor_tables(j, f, base, tracker, cd, sd)[i].1.cols[d].poly.tracker == tracker,
        factor_tables(j, f, base, tracker, cd, sd)[i].1.log_size == factor_tables(
            j,
            f,
            base,
            tracker,
            cd,
            sd,
        )[i].1.cols[d].poly.log_size,
{
    let tables = factor_tables(j, f, base, tracker, cd, sd);
    let commits = factor_commits(j, f, cd, sd);
    let n = f.rotated_chars as int;
    let mask = if f.att_mask {
        1int
    } else {
        0int
    };
    let bnd = match f.rotated_bnd {
        Some(m) => m as int,
        None => 0int,
    };
    let rot = rotated_commits(j, f.rotated_chars as nat, cd);
    assert(rot.len() == n);
    assert(commits.len() == n + 7 + mask + bnd + (if f.past {
        1int
    } else {
        0int
    }));
    assert forall|k: int| 0 <= k < n implies #[trigger] commits[k] == rot[k] by {}
    assert(commits[n].column == WitnessColumn::Occurs(j));
    assert(commits[n + 1].column == WitnessColumn::MatchStr(j));
    assert(commits[n + 2].column == WitnessColumn::Mark(j));
    assert(commits[n + 3].column == WitnessColumn::Start(j));
    assert(commits[n + 4].column == WitnessColumn::MatchBroadcast(j));
    assert(commits[n + 5].column == WitnessColumn::StartBroadcast(j));
    assert(commits[n + 6].column == WitnessColumn::LeftmostMask(j));
    if i == 0 {
        assert(commits[d] == rot[d]);
        d
    } else if i < 8 {
        n + i - 1
    } else if f.att_mask && i == 8 {
        assert(commits[n + 7].column == WitnessColumn::AttMask(j));
        n + 7
    } else if f.rotated_bnd is Some && i == 8 + mask {
        let bs = boundary_commits(j, bnd as nat, cd);
        assert(commits[n + 7 + mask + d] == bs[d]);
        n + 7 + mask + d
    } else {
        assert(f.past);
        assert(commits[n + 7 + mask + bnd].column == WitnessColumn::Past(j));
        n + 7 + mask + bnd
    }
}

proof fn lemma_commits_of_factor(
    shapes: Seq<FactorShape>,
    j: nat,
    n: nat,
    cd: usize,
    sd: usize,
    o: int,
)
    requires
        j < n <= shapes.len(),
        0 <= o < factor_commits(j as usize, shapes[j as int], cd, sd).len(),
    ensures
        commits_before(shapes, j, cd, sd).len() + o < commits_before(shapes, n, cd, sd).len(),
        commits_before(shapes, n, cd, sd)[commits_before(shapes, j, cd, sd).len() + o]
            == factor_commits(j as usize, shapes[j as int], cd, sd)[o],
    decreases n,
{
    if j < n - 1 {
        lemma_commits_of_factor(shapes, j, (n - 1) as nat, cd, sd, o);
    }
}

proof fn lemma_table_of_factor(
    shapes: Seq<FactorShape>,
    n: nat,
    next_id: int,
    tracker: usize,
    cd: usize,
    sd: usize,
    i: int,
) -> (jk: (nat, int))
    requires
        n <= shapes.len(),
        0 <= i < tables_before(shapes, n, next_id, tracker, cd, sd).len(),
    ensures
        ({
            let (j, k) = jk;
            let tables = factor_tables(
                j as usize,
                shapes[j as int],
                next_id + commits_before(shapes, j, cd, sd).len(),
                tracker,
                cd,
                sd,
            );
            &&& j < n
            &&& 0 <= k < tables.len()
            &&& tables_before(shapes, n, next_id, tracker, cd, sd)[i] == tables[k]
        }),
    decreases n,
{
    let before = tables_before(shapes, (n - 1) as nat, next_id, tracker, cd, sd);
    if i < before.len() {
        lemma_table_of_factor(shapes, (n - 1) as nat, next_id, tracker, cd, sd, i)
    } else {
        ((n - 1) as nat, i - before.len())
    }
}

/// Every table of a factor holds the commitments that were made for its role and
/// its factor, over the domain that they were committed over. The commitments
/// are found by their place in the list: the identifiers count on from the first
/// free one.
pub proof fn factor_tables_hold_their_own_commitments(
    x: LikeInputsView,
    shapes: Seq<FactorShape>,
    a_new: Poly,
    next_id: int,
    i: int,
    d: int,
)
    requires
        6 <= i < like_payload(x, shapes, a_new, next_id).len(),
        0 <= d < like_payload(x, shapes, a_new, next_id)[i].1.cols.len(),
    ensures
        ({
            let entry = like_payload(x, shapes, a_new, next_id)[i];
            let commits = like_commits(shapes, x.row_id is Some, x.char_domain, x.str_domain);
            &&& entry.0 matches McpmLabel::Factor(j, role) && exists|o: int| #[trigger]
                holds_commit(entry.1.cols[d].poly, commits, next_id, o) && serves(
                    commits[o].column,
                    j,
                    role,
                    d,
                )
            &&& entry.1.log_size == entry.1.cols[d].poly.log_size
            &&& entry.1.cols[d].poly.tracker == x.chars.tracker
        }),
{
    let tracker = x.chars.tracker;
    let cd = x.char_domain;
    let sd = x.str_domain;
    let n = shapes.len();
    let payload = like_payload(x, shapes, a_new, next_id);
    let tables = tables_before(shapes, n, next_id, tracker, cd, sd);
    assert(payload[i] == tables[i - 6]);
    let (j, k) = lemma_table_of_factor(shapes, n, next_id, tracker, cd, sd, i - 6);
    let start = commits_before(shapes, j, cd, sd).len() as int;
    let o = lemma_factor_tables(
        j as usize,
        shapes[j as int],
        next_id + start,
        tracker,
        cd,
        sd,
        k,
        d,
    );
    lemma_commits_of_factor(shapes, j, n, cd, sd, o);
    let all = commits_before(shapes, n, cd, sd);
    let commits = like_commits(shapes, x.row_id is Some, cd, sd);
    assert(commits[start + o] == all[start + o]);
    assert(holds_commit(payload[i].1.cols[d].poly, commits, next_id, start + o));
}

proof fn lemma_first_commits(shapes: Seq<FactorShape>, n: nat, cd: usize, sd: usize)
    ensures
        commits_before(shapes, n, cd, sd).len() >= 3,
        commits_before(shapes, n, cd, sd).take(3) == commits_before(shapes, 0, cd, sd),
    decreases n,
{
    let first = commits_before(shapes, 0, cd, sd);
    if n > 0 {
        lemma_first_commits(shapes, (n - 1) as nat, cd, sd);
        let before = commits_before(shapes, (n - 1) as nat, cd, sd);
        assert(commits_before(shapes, n, cd, sd).take(3) =~= before.take(3));
    } else {
        assert(first.take(3) =~= first);
    }
}

/// The tables of the length filter and of the new activators hold the three
/// commitments in front; a scope without row numbers gets them committed last,
/// and only such a scope.
pub proof fn filter_tables_hold_the_first_commitments(
    x: LikeInputsView,
    shapes: Seq<FactorShape>,
    a_new: Poly,
    next_id: int,
)
    ensures
        ({
            let p = like_payload(x, shapes, a_new, next_id);
            let commits = like_commits(shapes, x.row_id is Some, x.char_domain, x.str_domain);
            let last = commits.len() - 1;
            &&& p[2].0 == McpmLabel::LengthFilteredChar
            &&& holds_commit(p[2].1.cols[0].poly, commits, next_id, 0)
            &&& commits[0].column == WitnessColumn::CharActOldPrime
            &&& commits[0].log_size == x.char_domain
            &&& p[3].0 == McpmLabel::LengthFilteredStr
            &&& holds_commit(p[3].1.cols[0].poly, commits, next_id, 1)
            &&& commits[1].column == WitnessColumn::AOldPrime
            &&& commits[1].log_size == x.str_domain
            &&& p[4].0 == McpmLabel::NewChar
            &&& holds_commit(p[4].1.cols[0].poly, commits, next_id, 2)
            &&& commits[2].column == WitnessColumn::CharActNew
            &&& commits[2].log_size == x.char_domain
            &&& x.row_id is None ==> commits[last].column == WitnessColumn::RowNumbers
                && commits[last].log_size == x.str_domain && p[1].1
                == str_input_table(
                x,
                Poly {
                    id: PolyId::Numbered((next_id + last) as usize),
                    tracker: x.chars.tracker,
                    log_size: x.str_domain,
                },
            )
            &&& x.row_id matches Some(ind) ==> p[1].1 == str_input_table(x, ind)
        }),
{
    let cd = x.char_domain;
    let sd = x.str_domain;
    lemma_first_commits(shapes, shapes.len(), cd, sd);
    let all = commits_before(shapes, shapes.len(), cd, sd);
    let commits = like_commits(shapes, x.row_id is Some, cd, sd);
    let first = commits_before(shapes, 0, cd, sd);
    assert(all[0] == all.take(3)[0]);
    assert(all[1] == all.take(3)[1]);
    assert(all[2] == all.take(3)[2]);
    assert(commits[0] == all[0] && commits[1] == all[1] && commits[2] == all[2]);
}

/// A factor needs a shifted copy of the characters for each of its characters,
/// a mask for the end of the string exactly when it has to stand there, shifted
/// boundaries exactly when it may stand anywhere and has more than one
/// character, and a mark of what lies behind it exactly when another factor
/// follows.
pub proof fn factors_need_what_their_place_asks_for(factors: Seq<Factor>, j: int)
    requires
        0 <= j < factors.len(),
    ensures
        shapes_of(factors).len() == factors.len(),
        shapes_of(factors)[j].rotated_chars == factors[j].len,
        shapes_of(factors)[j].att_mask <==> factors[j].mode == Mode::Suffix,
        shapes_of(factors)[j].rotated_bnd is Some <==> factors[j].mode == Mode::Infix
            && factors[j].len >= 2,
        shapes_of(factors)[j].rotated_bnd matches Some(n) ==> n + 1 == factors[j].len,
        shapes_of(factors)[j].past <==> j + 1 < factors.len(),
{
}

/// A pattern is taken exactly from a plain `LIKE`: not negated, minding the
/// case, without an escape, with a string literal as its pattern, whose text it
/// is.
pub proof fn patterns_are_those_of_plain_likes(e: ExprView)
    ensures
        like_pattern(e) is Ok <==> (e matches ExprView::Like {
            negated,
            expr: _,
            pattern,
            escape_char,
            case_insensitive,
        } && !negated && !case_insensitive && escape_char is None && (*pattern matches
            ExprView::Literal(v) && (v matches ScalarView::Utf8(Some(_)) || v
            matches ScalarView::LargeUtf8(Some(_)) || v matches ScalarView::Utf8View(Some(_))))),
        like_pattern(e) matches Ok(s) ==> (e matches ExprView::Like {
            negated: _,
            expr: _,
            pattern,
            escape_char: _,
            case_insensitive: _,
        } && (*pattern == ExprView::Literal(ScalarView::Utf8(Some(s))) || *pattern
            == ExprView::Literal(ScalarView::LargeUtf8(Some(s))) || *pattern
            == ExprView::Literal(ScalarView::Utf8View(Some(s))))),
        e matches ExprView::Like { negated: true, .. } ==> like_pattern(e) == Err::<
            Seq<char>,
            LikeUnsupported,
        >(LikeUnsupported::Negated),
{
}

/// The output of a `LIKE` goes with the activator and the row numbers of its
/// scope. Without a literal factor it is the constant one and is not committed;
/// with one it is a committed column, under the first free identifier.
pub proof fn outputs_go_with_their_scope(
    scope: TableView,
    input: ExprView,
    pattern: ExprView,
    factors: nat,
    next_id: usize,
    party: Party,
)
    requires
        like_column(scope, factors, next_id, party) is Ok,
    ensures
        ({
            let (committed, p) = like_column(scope, factors, next_id, party)->Ok_0;
            let cols = like_output_cols(scope, like_output_field(input, pattern), p);
            &&& committed <==> factors > 0
            &&& p.log_size == scope.log_size
            &&& factors == 0 ==> p.id == PolyId::One
            &&& factors > 0 ==> p.id == PolyId::Numbered(next_id)
            &&& is_column_data(cols, like_output_name(input, pattern), p)
            &&& forall|q: Poly|
                poly_named(scope, "__activator__"@) == Some(q) ==> is_column_data(
                    cols,
                    "__activator__"@,
                    q,
                )
            &&& forall|q: Poly|
                poly_named(scope, "__row_id__"@) == Some(q) ==> is_column_data(
                    cols,
                    "__row_id__"@,
                    q,
                )
        }),
{
    let (committed, p) = like_column(scope, factors, next_id, party)->Ok_0;
    let field = like_output_field(input, pattern);
    lemma_like_name_is_no_system_name(input, pattern);
    let first = seq![ColView { field, poly: p }];
    let second = match poly_named(scope, ACTIVATOR_COL_NAME@) {
        Some(q) => cols_insert(first, activator_field_view(), q),
        None => first,
    };
    let cols = like_output_cols(scope, field, p);
    lemma_field_index(first, activator_field_view());
    lemma_name_index(scope.cols, ACTIVATOR_COL_NAME@);
    lemma_name_index(scope.cols, ROW_ID_COL_NAME@);
    assert(second[0] == first[0]);
    match name_index(scope.cols, ROW_ID_COL_NAME@) {
        Some(i) => {
            lemma_field_index(second, scope.cols[i].field);
            reveal_strlit("__activator__");
            reveal_strlit("__row_id__");
            assert(ACTIVATOR_COL_NAME@.len() != ROW_ID_COL_NAME@.len());
            assert(cols == second.push(scope.cols[i]));
            assert(cols[second.len() as int].poly == scope.cols[i].poly);
        },
        None => {},
    }
    assert(cols[0] == first[0]);
    if poly_named(scope, ACTIVATOR_COL_NAME@) is Some {
        assert(second[1].field == activator_field_view());
        assert(cols[1] == second[1]);
    }
}

/// What is missing is what is reported: no string column at all, one of the
/// four segments over the characters, the lengths, the activity of the
/// characters, or the activator.
pub proof fn what_is_missing_is_reported(scope: TableView, e: LikeError)
    requires
        like_inputs(scope) == Err::<LikeInputsView, LikeError>(e),
    ensures
        ({
            let base = string_base(scope.side_cols);
            &&& e is NoStringColumn <==> base is None
            &&& e is MissingOrigInd ==> forall|i: int|
                0 <= i < scope.side_cols.len() ==> (#[trigger] scope.side_cols[i]).name
                    != base->0 + "__orig_ind"@
            &&& e is MissingIntInd ==> forall|i: int|
                0 <= i < scope.side_cols.len() ==> (#[trigger] scope.side_cols[i]).name
                    != base->0 + "__int_ind"@
            &&& e is MissingBnd ==> forall|i: int|
                0 <= i < scope.side_cols.len() ==> (#[trigger] scope.side_cols[i]).name
                    != base->0 + "__bnd"@
            &&& e is MissingLength ==> forall|i: int|
                0 <= i < scope.cols.len() ==> (#[trigger] scope.cols[i]).field.name != base->0
                    + "__length"@
            &&& e is MissingActivator ==> forall|i: int|
                0 <= i < scope.cols.len() ==> (#[trigger] scope.cols[i]).field.name
                    != "__activator__"@
            &&& !(e is MissingOutput)
        }),
{
    if string_base(scope.side_cols) is Some {
        let base = string_base(scope.side_cols)->0;
        lemma_side_index(scope.side_cols, base + STRING_CHARS_SUFFIX@);
        lemma_side_index(scope.side_cols, base + STRING_ORIG_IND_SUFFIX@);
        lemma_side_index(scope.side_cols, base + STRING_INT_IND_SUFFIX@);
        lemma_side_index(scope.side_cols, base + STRING_BND_SUFFIX@);
        lemma_name_index(scope.cols, base + STRING_LENGTH_SUFFIX@);
        lemma_name_index(scope.cols, ACTIVATOR_COL_NAME@);
    }
}

/// The outcome that is wired is the one that the node's own table holds under
/// the name of the outcome.
pub proof fn outcomes_are_read_from_the_own_table(
    scope: TableView,
    own: TableView,
    field: FieldView,
    x: LikeInputsView,
    a_new: Poly,
)
    requires
        like_ready(scope, own, field) == Ok::<(LikeInputsView, Poly), LikeError>((x, a_new)),
    ensures
        is_column_data(own.cols, field.name, a_new),
        like_inputs(scope) == Ok::<LikeInputsView, LikeError>(x),
{
    lemma_name_index(own.cols, field.name);
}

/// The outcome of a `LIKE` is a Boolean, named after the column and the
/// pattern, the column first.
pub proof fn outcomes_are_named_after_column_and_pattern(c: ColumnView, s: Seq<char>)
    ensures
        ({
            let f = like_output_field(
                ExprView::Column(c),
                ExprView::Literal(ScalarView::Utf8(Some(s))),
            );
            &&& f.name == c.name + "_LIKE_"@ + s
            &&& f.data_type == TypeView::Boolean
            &&& f.nullable
        }),
{
}

} // verus!
