//! What a `LIKE` is planned from: the characters of its string column, read
//! while the query is planned.
use crate::constraints::{Constraints, TableConstraintView};
use crate::df_schema::{DfSchema, QFieldView, QualifiedField};
use crate::field_bytes::{field_to_i64_like, le_value, lemma_pow2_monotone, signed_word};
use crate::hints::{
    flag_of, flag_or_true, flags_view, hint_view, lemma_flag_after_set, normalization_keeps_columns,
    normalized_flags, set_flag, with_flag, HintDF, HintView,
};
use crate::like::{
    STRING_BND_SUFFIX, STRING_CHARS_SUFFIX, STRING_INT_IND_SUFFIX, STRING_ORIG_IND_SUFFIX,
};
use crate::schema::{fields_view, plain_field, DataType, Field, FieldView, TypeView};
use crate::seqs::{first_index, lemma_first_index, lemma_is_first, lemma_no_first, texts_view};
use crate::table::{
    is_system_column, is_system_name, Party, ACTIVATOR_COL_NAME, ROW_ID_COL_NAME,
    STRING_LENGTH_SUFFIX,
};
use crate::text::{decimal, decimal_text, join_text3, lemma_decimal_injective, same_text};
use vstd::arithmetic::power2::{lemma_pow2_unfold, pow2};
use vstd::prelude::*;
use vstd::string::*;

verus! {

// ---------------------------------------------------------------------------
// The string column
// ---------------------------------------------------------------------------

/// Whether values of the type are strings.
pub open spec fn is_string_type(t: TypeView) -> bool {
    t == TypeView::Utf8 || t == TypeView::LargeUtf8 || t == TypeView::Utf8View
}

/// Satisfied by the string columns that are no system columns.
pub open spec fn is_string_field() -> spec_fn(FieldView) -> bool {
    |f: FieldView| !is_system_name(f.name) && is_string_type(f.data_type)
}

/// Satisfied by the fields of the given name.
pub open spec fn is_field(name: Seq<char>) -> spec_fn(FieldView) -> bool {
    |f: FieldView| f.name == name
}

fn has_string_type(t: &DataType) -> (r: bool)
    ensures
        r == is_string_type(t@),
{
    match t {
        DataType::Utf8 => true,
        DataType::LargeUtf8 => true,
        DataType::Utf8View => true,
        _ => false,
    }
}

/// Position of the first string column.
pub fn find_string_column(fields: &Vec<Field>) -> (r: Option<usize>)
    ensures
        match r {
            Some(i) => first_index(fields_view(fields@), is_string_field()) == Some(i as int) && i
                < fields@.len(),
            None => first_index(fields_view(fields@), is_string_field()) is None,
        },
{
    let ghost views = fields_view(fields@);
    let ghost p = is_string_field();
    let mut i: usize = 0;
    while i < fields.len()
        invariant
            i <= fields@.len(),
            views == fields_view(fields@),
            p == is_string_field(),
            forall|j: int| 0 <= j < i ==> !p(#[trigger] views[j]),
        decreases fields@.len() - i,
    {
        assert(views[i as int] == fields@[i as int]@);
        if !is_system_column(fields[i].name.as_str()) && has_string_type(&fields[i].data_type) {
            proof {
                lemma_is_first(views, p, i as int);
            }
            return Some(i);
        }
        i = i + 1;
    }
    proof {
        lemma_no_first(views, p);
    }
    None
}

fn find_field_named(fields: &Vec<Field>, name: &str) -> (r: Option<usize>)
    ensures
        match r {
            Some(i) => first_index(fields_view(fields@), is_field(name@)) == Some(i as int) && i
                < fields@.len(),
            None => first_index(fields_view(fields@), is_field(name@)) is None,
        },
{
    let ghost views = fields_view(fields@);
    let ghost p = is_field(name@);
    let mut i: usize = 0;
    while i < fields.len()
        invariant
            i <= fields@.len(),
            views == fields_view(fields@),
            p == is_field(name@),
            forall|j: int| 0 <= j < i ==> !p(#[trigger] views[j]),
        decreases fields@.len() - i,
    {
        assert(views[i as int] == fields@[i as int]@);
        if same_text(fields[i].name.as_str(), name) {
            proof {
                lemma_is_first(views, p, i as int);
            }
            return Some(i);
        }
        i = i + 1;
    }
    proof {
        lemma_no_first(views, p);
    }
    None
}

/// The number of bytes of all the strings that are not null.
pub open spec fn total_bytes(lengths: Seq<Option<usize>>) -> nat
    decreases lengths.len(),
{
    if lengths.len() == 0 {
        0
    } else {
        total_bytes(lengths.drop_last()) + (match lengths.last() {
            Some(n) => n as nat,
            None => 0,
        })
    }
}

/// The number of bytes of all the strings that are not null.
pub fn active_bytes(lengths: &Vec<Option<usize>>) -> (r: u128)
    ensures
        r == total_bytes(lengths@),
{
    let mut sum: u128 = 0;
    let mut i: usize = 0;
    assert(lengths@.take(0) =~= Seq::<Option<usize>>::empty());
    while i < lengths.len()
        invariant
            i <= lengths@.len(),
            sum <= i * 0xffff_ffff_ffff_ffff,
            sum == total_bytes(lengths@.take(i as int)),
        decreases lengths@.len() - i,
    {
        proof {
            assert(lengths@.take(i + 1).drop_last() =~= lengths@.take(i as int));
            assert(lengths@.take(i + 1).last() == lengths@[i as int]);
            assert(sum <= 0xffff_ffff_ffff_ffff * 0xffff_ffff_ffff_ffff) by (nonlinear_arith)
                requires
                    sum <= i * 0xffff_ffff_ffff_ffff,
                    i <= 0xffff_ffff_ffff_ffff,
            ;
        }
        match lengths[i] {
            Some(n) => {
                sum = sum + n as u128;
            },
            None => {},
        }
        i = i + 1;
    }
    assert(lengths@.take(lengths@.len() as int) =~= lengths@);
    sum
}

// ---------------------------------------------------------------------------
// The encoded segments
// ---------------------------------------------------------------------------

/// What an encoded segment holds.
#[derive(Debug, Clone, Copy, PartialEq, Eq, Structural)]
pub enum SegmentData {
    /// One value per row.
    Rows,
    /// One byte per character.
    Bytes { len: usize },
    /// One number per character.
    Numbers { len: usize },
    /// Anything else.
    Other,
}

/// A segment of an encoded string column.
#[derive(Debug)]
pub struct EncodedSegment {
    pub suffix: String,
    pub data: SegmentData,
}

/// Mathematical counterpart of [`EncodedSegment`].
#[verifier::ext_equal]
pub struct EncodedView {
    pub suffix: Seq<char>,
    pub data: SegmentData,
}

/// The segments as mathematical values.
pub open spec fn encoded_view(s: Seq<EncodedSegment>) -> Seq<EncodedView> {
    Seq::new(s.len(), |i: int| EncodedView { suffix: s[i].suffix@, data: s[i].data })
}

/// Satisfied by the segments of the given suffix.
pub open spec fn has_segment_suffix(suffix: Seq<char>) -> spec_fn(EncodedView) -> bool {
    |e: EncodedView| e.suffix == suffix
}

/// Which kind of data a segment is needed for.
#[derive(Debug, Clone, Copy, PartialEq, Eq, Structural)]
pub enum SegmentUse {
    Rows,
    Bytes,
    Numbers,
}

/// Whether data serve a use.
pub open spec fn serves(data: SegmentData, u: SegmentUse) -> bool {
    match (data, u) {
        (SegmentData::Rows, SegmentUse::Rows) => true,
        (SegmentData::Bytes { .. }, SegmentUse::Bytes) => true,
        (SegmentData::Numbers { .. }, SegmentUse::Numbers) => true,
        _ => false,
    }
}

/// Position of the first segment of a suffix, where its data serve the use.
pub open spec fn segment_for(s: Seq<EncodedView>, suffix: Seq<char>, u: SegmentUse) -> Option<int> {
    match first_index(s, has_segment_suffix(suffix)) {
        Some(i) => if serves(s[i].data, u) {
            Some(i)
        } else {
            None
        },
        None => None,
    }
}

fn find_segment(segments: &Vec<EncodedSegment>, suffix: &str, u: SegmentUse) -> (r: Option<usize>)
    ensures
        match r {
            Some(i) => i < segments@.len() && segment_for(encoded_view(segments@), suffix@, u)
                == Some(i as int),
            None => segment_for(encoded_view(segments@), suffix@, u) is None,
        },
{
    let ghost views = encoded_view(segments@);
    let ghost p = has_segment_suffix(suffix@);
    let mut i: usize = 0;
    while i < segments.len()
        invariant
            i <= segments@.len(),
            views == encoded_view(segments@),
            p == has_segment_suffix(suffix@),
            forall|j: int| 0 <= j < i ==> !p(#[trigger] views[j]),
        decreases segments@.len() - i,
    {
        assert(views[i as int].suffix == segments@[i as int].suffix@);
        if same_text(segments[i].suffix.as_str(), suffix) {
            proof {
                lemma_is_first(views, p, i as int);
            }
            let served: bool = match (segments[i].data, u) {
                (SegmentData::Rows, SegmentUse::Rows) => true,
                (SegmentData::Bytes { .. }, SegmentUse::Bytes) => true,
                (SegmentData::Numbers { .. }, SegmentUse::Numbers) => true,
                _ => false,
            };
            return if served {
                Some(i)
            } else {
                None
            };
        }
        i = i + 1;
    }
    proof {
        lemma_no_first(views, p);
    }
    None
}

// ---------------------------------------------------------------------------
// Domains
// ---------------------------------------------------------------------------

/// How often two divides a number.
pub open spec fn twos(n: nat) -> nat
    decreases n,
{
    if n > 0 && n % 2 == 0 {
        1 + twos(n / 2)
    } else {
        0
    }
}

/// How often two divides a number.
pub fn trailing_twos(n: usize) -> (r: usize)
    ensures
        r == twos(n as nat),
        r <= n,
    decreases n,
{
    if n > 0 && n % 2 == 0 {
        let rest: usize = trailing_twos(n / 2);
        rest + 1
    } else {
        0
    }
}

/// A power of two is divided by two as often as its exponent says: the size
/// of a padded column gives the size of its domain.
pub proof fn padded_sizes_give_their_domain(d: nat)
    ensures
        twos(pow2(d)) == d,
    decreases d,
{
    if d == 0 {
        vstd::arithmetic::power2::lemma2_to64();
    } else {
        lemma_pow2_unfold(d);
        padded_sizes_give_their_domain((d - 1) as nat);
        vstd::arithmetic::power2::lemma_pow2_pos((d - 1) as nat);
    }
}

/// The flags of characters that are active: those in front of the padding.
pub open spec fn active_chars(padded: nat, active: nat) -> Seq<bool> {
    Seq::new(padded, |i: int| i < active)
}

/// The flags of characters that are active.
pub fn char_activity(padded: usize, active: u128) -> (r: Vec<bool>)
    ensures
        r@ == active_chars(padded as nat, active as nat),
{
    let mut out: Vec<bool> = Vec::new();
    let mut i: usize = 0;
    while i < padded
        invariant
            i <= padded,
            out@.len() == i,
            forall|j: int| 0 <= j < i ==> out@[j] == (j < active),
        decreases padded - i,
    {
        out.push((i as u128) < active);
        i = i + 1;
    }
    assert(out@ =~= active_chars(padded as nat, active as nat));
    out
}

// ---------------------------------------------------------------------------
// The scan
// ---------------------------------------------------------------------------

/// Where the values of a row column come from.
#[derive(Debug, Clone, Copy, PartialEq, Eq, Structural)]
pub enum RowSource {
    /// The encoded column at this position.
    Column(usize),
    /// The numbers from zero, this many.
    Count(usize),
    /// Ones, this many.
    Ones(usize),
}

/// What is read of a planned input before the witness of a `LIKE` is
/// computed. The positions of segments are those in the list of encoded
/// segments.
#[derive(Debug)]
pub struct ScannedTables {
    pub length: usize,
    pub chars: usize,
    pub orig_ind: usize,
    pub int_ind: usize,
    pub bnd: usize,
    pub char_act: Vec<bool>,
    pub char_domain: usize,
    pub ind: RowSource,
    pub a: RowSource,
    pub str_domain: usize,
}

/// Mathematical counterpart of [`ScannedTables`].
#[verifier::ext_equal]
pub struct ScannedView {
    pub length: int,
    pub chars: int,
    pub orig_ind: int,
    pub int_ind: int,
    pub bnd: int,
    pub char_act: Seq<bool>,
    pub char_domain: nat,
    pub ind: RowSource,
    pub a: RowSource,
    pub str_domain: nat,
}

impl ScannedTables {
    /// The scan as a mathematical value.
    pub open spec fn view(&self) -> ScannedView {
        ScannedView {
            length: self.length as int,
            chars: self.chars as int,
            orig_ind: self.orig_ind as int,
            int_ind: self.int_ind as int,
            bnd: self.bnd as int,
            char_act: self.char_act@,
            char_domain: self.char_domain as nat,
            ind: self.ind,
            a: self.a,
            str_domain: self.str_domain as nat,
        }
    }
}

/// At least one.
pub open spec fn at_least_one(n: nat) -> nat {
    if n == 0 {
        1
    } else {
        n
    }
}

/// The number of characters of a segment of bytes.
pub open spec fn byte_count(data: SegmentData) -> nat {
    match data {
        SegmentData::Bytes { len } => len as nat,
        _ => 0,
    }
}

/// The source of a row column: the named column, or else the default.
pub open spec fn row_source(
    fields: Seq<FieldView>,
    name: Seq<char>,
    default: RowSource,
) -> RowSource {
    match first_index(fields, is_field(name)) {
        Some(i) => RowSource::Column(i as usize),
        None => default,
    }
}

/// What is read of a planned input: its fields, the lengths of its strings
/// and the segments that its string column was encoded as. Nothing where a
/// segment is missing or holds other data.
pub open spec fn scanned(
    fields: Seq<FieldView>,
    lengths: Seq<Option<usize>>,
    segments: Seq<EncodedView>,
) -> Option<ScannedView> {
    match (
        segment_for(segments, STRING_LENGTH_SUFFIX@, SegmentUse::Rows),
        segment_for(segments, STRING_CHARS_SUFFIX@, SegmentUse::Bytes),
        segment_for(segments, STRING_ORIG_IND_SUFFIX@, SegmentUse::Numbers),
        segment_for(segments, STRING_INT_IND_SUFFIX@, SegmentUse::Numbers),
        segment_for(segments, STRING_BND_SUFFIX@, SegmentUse::Bytes),
    ) {
        (Some(length), Some(chars), Some(orig_ind), Some(int_ind), Some(bnd)) => {
            let padded = at_least_one(byte_count(segments[chars].data));
            Some(
                ScannedView {
                    length,
                    chars,
                    orig_ind,
                    int_ind,
                    bnd,
                    char_act: active_chars(padded, total_bytes(lengths)),
                    char_domain: twos(padded),
                    ind: row_source(
                        fields,
                        ROW_ID_COL_NAME@,
                        RowSource::Count(lengths.len() as usize),
                    ),
                    a: row_source(
                        fields,
                        ACTIVATOR_COL_NAME@,
                        RowSource::Ones(lengths.len() as usize),
                    ),
                    str_domain: twos(at_least_one(lengths.len())),
                },
            )
        },
        _ => None,
    }
}

fn find_row_source(fields: &Vec<Field>, name: &str, default: RowSource) -> (r: RowSource)
    ensures
        r == row_source(fields_view(fields@), name@, default),
{
    match find_field_named(fields, name) {
        Some(i) => RowSource::Column(i),
        None => default,
    }
}

/// What is read of a planned input before the witness of a `LIKE` is
/// computed.
pub fn scan_string_side_data(
    fields: &Vec<Field>,
    lengths: &Vec<Option<usize>>,
    segments: &Vec<EncodedSegment>,
) -> (r: Option<ScannedTables>)
    ensures
        match r {
            Some(t) => scanned(fields_view(fields@), lengths@, encoded_view(segments@)) == Some(t@),
            None => scanned(fields_view(fields@), lengths@, encoded_view(segments@)) is None,
        },
{
    let length: usize = match find_segment(segments, STRING_LENGTH_SUFFIX, SegmentUse::Rows) {
        Some(i) => i,
        None => return None,
    };
    let chars: usize = match find_segment(segments, STRING_CHARS_SUFFIX, SegmentUse::Bytes) {
        Some(i) => i,
        None => return None,
    };
    let orig_ind: usize = match find_segment(
        segments,
        STRING_ORIG_IND_SUFFIX,
        SegmentUse::Numbers,
    ) {
        Some(i) => i,
        None => return None,
    };
    let int_ind: usize = match find_segment(segments, STRING_INT_IND_SUFFIX, SegmentUse::Numbers) {
        Some(i) => i,
        None => return None,
    };
    let bnd: usize = match find_segment(segments, STRING_BND_SUFFIX, SegmentUse::Bytes) {
        Some(i) => i,
        None => return None,
    };
    assert(encoded_view(segments@)[chars as int].data == segments@[chars as int].data);
    let count: usize = match segments[chars].data {
        SegmentData::Bytes { len } => len,
        _ => 0,
    };
    let padded: usize = if count == 0 {
        1
    } else {
        count
    };
    let rows: usize = if lengths.len() == 0 {
        1
    } else {
        lengths.len()
    };
    Some(
        ScannedTables {
            length,
            chars,
            orig_ind,
            int_ind,
            bnd,
            char_act: char_activity(padded, active_bytes(lengths)),
            char_domain: trailing_twos(padded),
            ind: find_row_source(fields, ROW_ID_COL_NAME, RowSource::Count(lengths.len())),
            a: find_row_source(fields, ACTIVATOR_COL_NAME, RowSource::Ones(lengths.len())),
            str_domain: trailing_twos(rows),
        },
    )
}

// ---------------------------------------------------------------------------
// Planned character columns
// ---------------------------------------------------------------------------

/// Whether `target` is the number of rows that `rows` values are padded to:
/// the smallest power of two that is large enough, and at least two.
pub open spec fn padded_rows(rows: nat, target: nat) -> bool {
    &&& target >= rows
    &&& target >= 2
    &&& exists|k: nat| #[trigger] pow2(k) == target
    &&& target > 2 ==> target < 2 * rows
}

/// The values padded with zeros.
pub open spec fn padded_values(values: Seq<int>, target: nat) -> Seq<int> {
    Seq::new(
        target,
        |i: int|
            if i < values.len() {
                values[i]
            } else {
                0
            },
    )
}

/// Field elements, given by their canonical bytes, as planned values.
pub open spec fn planned_values(values: Seq<Vec<u8>>) -> Seq<int> {
    Seq::new(values.len(), |i: int| signed_word(le_value(values[i]@)))
}

/// Whether every field element is a 64-bit word.
pub open spec fn all_words(values: Seq<Vec<u8>>) -> bool {
    forall|i: int| 0 <= i < values.len() ==> le_value((#[trigger] values[i])@) <= u64::MAX
}

/// Whether rows are so many that their padding cannot be numbered.
pub open spec fn too_many_rows(rows: nat) -> bool {
    forall|n: nat| #[trigger] padded_rows(rows, n) ==> n > usize::MAX || n > i64::MAX
}

/// The numbers of a list as mathematical values.
pub open spec fn int_values(s: Seq<i64>) -> Seq<int> {
    Seq::new(s.len(), |i: int| s[i] as int)
}

/// The rows of a planned character column.
#[derive(Debug)]
pub struct CharColumn {
    pub values: Vec<i64>,
    pub row_ids: Vec<i64>,
}

/// Why a planned character column could not be built.
#[derive(Debug, Clone, Copy, PartialEq, Eq, Structural)]
pub enum CharColumnError {
    /// The padded rows cannot be numbered.
    TooManyRows,
    /// A field element takes more than eight bytes.
    ValueTooLarge,
}

fn padded_size(rows: usize) -> (r: Option<usize>)
    ensures
        match r {
            Some(n) => padded_rows(rows as nat, n as nat) && n <= i64::MAX,
            None => too_many_rows(rows as nat),
        },
{
    let mut n: usize = 2;
    let ghost mut k: nat = 1;
    proof {
        vstd::arithmetic::power2::lemma2_to64();
    }
    while n < rows
        invariant
            n == pow2(k),
            n >= 2,
            n <= i64::MAX,
            n > 2 ==> n < 2 * rows,
        decreases
            if n < rows {
                rows - n
            } else {
                0
            },
    {
        if n > usize::MAX / 2 || n as u64 > 0x3fff_ffff_ffff_ffff {
            proof {
                assert forall|m: nat| #[trigger] padded_rows(rows as nat, m) implies m > usize::MAX
                    || m > i64::MAX by {
                    let j = choose|j: nat| #[trigger] pow2(j) == m;
                    if j <= k {
                        lemma_pow2_monotone(j, k);
                    } else {
                        lemma_pow2_monotone(k + 1, j);
                        lemma_pow2_unfold(k + 1);
                    }
                }
            }
            return None;
        }
        proof {
            lemma_pow2_unfold(k + 1);
            k = k + 1;
        }
        n = n * 2;
    }
    assert(pow2(k) == n);
    Some(n)
}

/// The rows of a planned character column for field elements: their values,
/// padded with zeros, and the numbers of the rows.
pub fn build_virtual_char_domain(values: &Vec<Vec<u8>>) -> (r: Result<CharColumn, CharColumnError>)
    ensures
        match r {
            Ok(c) => all_words(values@) && padded_rows(values@.len(), c.values@.len())
                && int_values(c.values@) == padded_values(
                planned_values(values@),
                c.values@.len(),
            ) && int_values(c.row_ids@) == Seq::new(c.values@.len(), |i: int| i),
            Err(CharColumnError::TooManyRows) => too_many_rows(values@.len()),
            Err(CharColumnError::ValueTooLarge) => !too_many_rows(values@.len()) && !all_words(
                values@,
            ),
        },
{
    let target: usize = match padded_size(values.len()) {
        Some(n) => n,
        None => return Err(CharColumnError::TooManyRows),
    };
    let mut out: Vec<i64> = Vec::new();
    let mut row_ids: Vec<i64> = Vec::new();
    let mut i: usize = 0;
    while i < target
        invariant
            i <= target,
            target <= i64::MAX,
            padded_rows(values@.len(), target as nat),
            out@.len() == i,
            row_ids@.len() == i,
            forall|j: int| 0 <= j < i ==> #[trigger] row_ids@[j] == j,
            forall|j: int|
                0 <= j < i && j < values@.len() ==> le_value((#[trigger] values@[j])@) <= u64::MAX,
            forall|j: int|
                0 <= j < i ==> (#[trigger] out@[j]) == if j < values@.len() {
                    signed_word(le_value(values@[j]@))
                } else {
                    0
                },
        decreases target - i,
    {
        if i < values.len() {
            match field_to_i64_like(&values[i]) {
                Some(v) => out.push(v),
                None => {
                    assert(le_value(values@[i as int]@) > u64::MAX);
                    return Err(CharColumnError::ValueTooLarge);
                },
            }
        } else {
            out.push(0);
        }
        row_ids.push(i as i64);
        i = i + 1;
    }
    assert(int_values(out@) =~= padded_values(planned_values(values@), target as nat));
    assert(int_values(row_ids@) =~= Seq::new(target as nat, |i: int| i));
    Ok(CharColumn { values: out, row_ids })
}

/// The schema of a planned character column.
pub open spec fn char_schema(name: Seq<char>) -> Seq<QFieldView> {
    seq![
        QFieldView { qualifier: None, field: plain_field(name, TypeView::Int64, false) },
        QFieldView { qualifier: None, field: plain_field(ROW_ID_COL_NAME@, TypeView::Int64, false) },
    ]
}

/// Both columns are virtual: nothing of them is committed.
pub open spec fn char_flags(name: Seq<char>) -> Seq<(FieldView, bool)> {
    with_flag(
        seq![(plain_field(name, TypeView::Int64, false), false)],
        plain_field(ROW_ID_COL_NAME@, TypeView::Int64, false),
        false,
    )
}

/// A planned character column. Prover and verifier plan it alike; only the
/// prover's has rows.
pub fn char_domain_hint(store: &Constraints, name: &str) -> (r: HintDF)
    ensures
        r.schema@ == char_schema(name@),
        r.flags() == normalized_flags(store@, char_schema(name@), char_flags(name@)),
{
    let mut fields: Vec<QualifiedField> = Vec::new();
    fields.push(
        QualifiedField { qualifier: None, field: Field::new(name, DataType::Int64, false) },
    );
    fields.push(
        QualifiedField {
            qualifier: None,
            field: Field::new(ROW_ID_COL_NAME, DataType::Int64, false),
        },
    );
    let schema = DfSchema { fields };
    assert(schema@ =~= char_schema(name@));
    let mut flags: Vec<(Field, bool)> = Vec::new();
    flags.push((Field::new(name, DataType::Int64, false), false));
    assert(flags_view(flags@) =~= seq![(plain_field(name@, TypeView::Int64, false), false)]);
    set_flag(&mut flags, Field::new(ROW_ID_COL_NAME, DataType::Int64, false), false);
    HintDF::new(store, schema, &flags)
}

/// The label of the planned column of string numbers.
pub const ORIG_IND_PLAN_HINT: &'static str = "__like_orig_ind_plan_hint__";

/// The label of the planned marks of a factor.
pub open spec fn mark_label(j: nat) -> Seq<char> {
    "__like_f"@ + decimal(j) + "_mark_plan_hint__"@
}

/// The labels of the planned columns of a `LIKE` with this many factors.
pub open spec fn plan_labels(factors: nat) -> Seq<Seq<char>> {
    seq![ORIG_IND_PLAN_HINT@] + Seq::new(factors, |j: int| mark_label(j as nat))
}

/// The labels of the planned columns of a `LIKE` with this many factors, in
/// the order in which they are put into the payload.
pub fn plan_hint_labels(factors: usize) -> (r: Vec<String>)
    ensures
        texts_view(r@) == plan_labels(factors as nat),
{
    let mut out: Vec<String> = Vec::new();
    out.push(ORIG_IND_PLAN_HINT.to_owned());
    let mut j: usize = 0;
    while j < factors
        invariant
            j <= factors,
            out@.len() == j + 1,
            out@[0]@ == ORIG_IND_PLAN_HINT@,
            forall|k: int| 0 <= k < j ==> (#[trigger] out@[k + 1])@ == mark_label(k as nat),
        decreases factors - j,
    {
        out.push(join_text3("__like_f", decimal_text(j).as_str(), "_mark_plan_hint__"));
        j = j + 1;
    }
    assert forall|i: int| 0 <= i < out@.len() implies (#[trigger] out@[i])@ == plan_labels(
        factors as nat,
    )[i] by {
        if i > 0 {
            assert(out@[i - 1 + 1]@ == mark_label((i - 1) as nat));
        }
    }
    assert(texts_view(out@) =~= plan_labels(factors as nat));
    out
}

/// A payload of planned tables as a mathematical value.
pub open spec fn plans_view(s: Seq<(String, HintDF)>) -> Seq<(Seq<char>, HintView)> {
    Seq::new(s.len(), |i: int| (s[i].0@, hint_view(s[i].1)))
}

/// Satisfied by the planned tables of the given label.
pub open spec fn has_label(label: Seq<char>) -> spec_fn((Seq<char>, HintView)) -> bool {
    |e: (Seq<char>, HintView)| e.0 == label
}

/// The payload with a planned table under a label: in place of the one that
/// the label had, or behind all others.
pub open spec fn with_plan(
    s: Seq<(Seq<char>, HintView)>,
    label: Seq<char>,
    h: HintView,
) -> Seq<(Seq<char>, HintView)> {
    match first_index(s, has_label(label)) {
        Some(i) => s.update(i, (label, h)),
        None => s.push((label, h)),
    }
}

/// A planned character column as a mathematical value.
pub open spec fn char_hint(
    store: Map<Seq<char>, TableConstraintView>,
    name: Seq<char>,
) -> HintView {
    HintView {
        schema: char_schema(name),
        flags: normalized_flags(store, char_schema(name), char_flags(name)),
    }
}

/// The name of the `k`-th planned column: first the numbers of the strings,
/// then the marks of each factor.
pub open spec fn plan_name(k: int) -> Seq<char> {
    if k == 0 {
        "orig_ind"@
    } else {
        "mark"@
    }
}

/// The payload of the gadget with its first `n` planned columns put into it.
pub open spec fn with_plans(
    store: Map<Seq<char>, TableConstraintView>,
    s: Seq<(Seq<char>, HintView)>,
    labels: Seq<Seq<char>>,
    n: nat,
) -> Seq<(Seq<char>, HintView)>
    decreases n,
{
    if n == 0 {
        s
    } else {
        with_plan(
            with_plans(store, s, labels, (n - 1) as nat),
            labels[n - 1],
            char_hint(store, plan_name(n - 1)),
        )
    }
}

fn put_plan(payload: &mut Vec<(String, HintDF)>, label: String, hint: HintDF)
    ensures
        plans_view(final(payload)@) == with_plan(
            plans_view(old(payload)@),
            label@,
            hint_view(hint),
        ),
{
    let ghost before = plans_view(payload@);
    let ghost p = has_label(label@);
    let mut i: usize = 0;
    while i < payload.len()
        invariant
            i <= payload@.len(),
            before == plans_view(payload@),
            before == plans_view(old(payload)@),
            p == has_label(label@),
            forall|j: int| 0 <= j < i ==> !p(#[trigger] before[j]),
        decreases payload@.len() - i,
    {
        assert(before[i as int].0 == payload@[i as int].0@);
        if same_text(payload[i].0.as_str(), label.as_str()) {
            proof {
                lemma_is_first(before, p, i as int);
            }
            let entry = (label, hint);
            payload.set(i, entry);
            assert(plans_view(payload@) =~= before.update(i as int, (entry.0@, hint_view(entry.1))));
            return;
        }
        i = i + 1;
    }
    proof {
        lemma_no_first(before, p);
    }
    let entry = (label, hint);
    payload.push(entry);
    assert(plans_view(payload@) =~= before.push((entry.0@, hint_view(entry.1))));
}

/// Whether the gadget of a `LIKE` is planned: its pattern has literal factors
/// and, for the prover, its input could be scanned.
pub open spec fn plans_gadget(factors: nat, is_scanned: bool, party: Party) -> bool {
    factors > 0 && (party == Party::Verifier || is_scanned)
}

/// Puts the planned columns of a `LIKE` into the payload of its gadget, and
/// leaves the payload alone where the gadget is not planned.
pub fn initialize_gadget_plans(
    store: &Constraints,
    payload: &mut Vec<(String, HintDF)>,
    factors: usize,
    scan: Option<&ScannedTables>,
    party: Party,
)
    ensures
        plans_view(final(payload)@) == if plans_gadget(factors as nat, scan is Some, party) {
            with_plans(
                store@,
                plans_view(old(payload)@),
                plan_labels(factors as nat),
                (factors + 1) as nat,
            )
        } else {
            plans_view(old(payload)@)
        },
{
    if factors == 0 {
        return;
    }
    match (party, scan) {
        (Party::Prover, None) => return,
        _ => {},
    }
    let ghost before = plans_view(payload@);
    let labels: Vec<String> = plan_hint_labels(factors);
    let ghost texts = plan_labels(factors as nat);
    assert(texts.len() == factors + 1);
    assert(texts_view(labels@).len() == labels@.len());
    let mut k: usize = 0;
    while k < labels.len()
        invariant
            k <= labels@.len(),
            labels@.len() == texts.len(),
            texts_view(labels@) == texts,
            plans_view(payload@) == with_plans(store@, before, texts, k as nat),
        decreases labels@.len() - k,
    {
        let name: &str = if k == 0 {
            "orig_ind"
        } else {
            "mark"
        };
        let hint = char_domain_hint(store, name);
        assert(texts[k as int] == labels@[k as int]@);
        assert(hint_view(hint) == char_hint(store@, plan_name(k as int)));
        put_plan(payload, labels[k].clone(), hint);
        k = k + 1;
    }
}

/// The planned columns of a `LIKE` have different labels, so that none takes
/// the place of another.
pub proof fn plan_labels_differ(factors: nat, i: int, j: int)
    requires
        0 <= i < plan_labels(factors).len(),
        0 <= j < plan_labels(factors).len(),
        plan_labels(factors)[i] == plan_labels(factors)[j],
    ensures
        i == j,
{
    reveal_strlit("__like_orig_ind_plan_hint__");
    reveal_strlit("__like_f");
    reveal_strlit("_mark_plan_hint__");
    let head = "__like_f"@;
    let tail = "_mark_plan_hint__"@;
    let labels = plan_labels(factors);
    if i > 0 && j > 0 {
        let a = mark_label((i - 1) as nat);
        assert(labels[i] == a);
        assert(labels[j] == mark_label((j - 1) as nat));
        assert(a.len() == head.len() + decimal((i - 1) as nat).len() + tail.len());
        assert(decimal((i - 1) as nat) =~= a.subrange(head.len() as int, a.len() - tail.len()));
        assert(decimal((j - 1) as nat) =~= a.subrange(head.len() as int, a.len() - tail.len()));
        lemma_decimal_injective((i - 1) as nat, (j - 1) as nat);
    } else if i > 0 {
        assert(labels[i] == mark_label((i - 1) as nat));
        assert(mark_label((i - 1) as nat)[7] == 'f');
        assert(ORIG_IND_PLAN_HINT@[7] == 'o');
    } else if j > 0 {
        assert(labels[j] == mark_label((j - 1) as nat));
        assert(mark_label((j - 1) as nat)[7] == 'f');
        assert(ORIG_IND_PLAN_HINT@[7] == 'o');
    }
}

/// The planned table under a label.
pub open spec fn plan_at(s: Seq<(Seq<char>, HintView)>, label: Seq<char>) -> Option<HintView> {
    match first_index(s, has_label(label)) {
        Some(i) => Some(s[i].1),
        None => None,
    }
}

proof fn lemma_with_plan(
    s: Seq<(Seq<char>, HintView)>,
    label: Seq<char>,
    h: HintView,
    other: Seq<char>,
)
    ensures
        plan_at(with_plan(s, label, h), other) == if other == label {
            Some(h)
        } else {
            plan_at(s, other)
        },
{
    let p = has_label(label);
    let q = has_label(other);
    let t = with_plan(s, label, h);
    lemma_first_index(s, p);
    lemma_first_index(s, q);
    match first_index(s, q) {
        Some(i) => {
            assert forall|j: int| 0 <= j < i implies !q(#[trigger] t[j]) by {
                assert(!q(s[j]));
            }
            assert(q(t[i]));
            lemma_is_first(t, q, i);
        },
        None => {
            assert forall|j: int| 0 <= j < s.len() implies !q(#[trigger] t[j]) by {
                assert(!q(s[j]));
            }
            if other == label {
                assert(q(t[s.len() as int]));
                lemma_is_first(t, q, s.len() as int);
            } else {
                lemma_no_first(t, q);
            }
        },
    }
}

proof fn lemma_with_plans(
    store: Map<Seq<char>, TableConstraintView>,
    s: Seq<(Seq<char>, HintView)>,
    factors: nat,
    n: nat,
    k: int,
)
    requires
        0 <= k <= factors,
        n <= factors + 1,
    ensures
        k < n ==> plan_at(
            with_plans(store, s, plan_labels(factors), n),
            plan_labels(factors)[k],
        ) == Some(char_hint(store, plan_name(k))),
    decreases n,
{
    if n > 0 {
        let labels = plan_labels(factors);
        lemma_with_plans(store, s, factors, (n - 1) as nat, k);
        lemma_with_plan(
            with_plans(store, s, labels, (n - 1) as nat),
            labels[n - 1],
            char_hint(store, plan_name(n - 1)),
            labels[k],
        );
        if labels[k] == labels[n - 1] {
            plan_labels_differ(factors, k, n - 1);
        }
    }
}

/// Each planned column is found under its label.
pub proof fn planned_columns_are_found(
    store: Map<Seq<char>, TableConstraintView>,
    s: Seq<(Seq<char>, HintView)>,
    factors: nat,
    k: int,
)
    requires
        0 <= k <= factors,
    ensures
        plan_at(
            with_plans(store, s, plan_labels(factors), factors + 1),
            plan_labels(factors)[k],
        ) == Some(char_hint(store, plan_name(k))),
{
    lemma_with_plans(store, s, factors, factors + 1, k);
}

/// Planning leaves what other labels hold alone.
pub proof fn planning_keeps_other_labels(
    store: Map<Seq<char>, TableConstraintView>,
    s: Seq<(Seq<char>, HintView)>,
    labels: Seq<Seq<char>>,
    n: nat,
    other: Seq<char>,
)
    requires
        n <= labels.len(),
        !labels.contains(other),
    ensures
        plan_at(with_plans(store, s, labels, n), other) == plan_at(s, other),
    decreases n,
{
    if n > 0 {
        planning_keeps_other_labels(store, s, labels, (n - 1) as nat, other);
        lemma_with_plan(
            with_plans(store, s, labels, (n - 1) as nat),
            labels[n - 1],
            char_hint(store, plan_name(n - 1)),
            other,
        );
        assert(labels.contains(labels[n - 1]));
    }
}

// ---------------------------------------------------------------------------
// What a scan reads
// ---------------------------------------------------------------------------

/// Whether a segment is the first of its suffix.
pub open spec fn is_first_of_suffix(s: Seq<EncodedView>, i: int, suffix: Seq<char>) -> bool {
    &&& 0 <= i < s.len()
    &&& s[i].suffix == suffix
    &&& forall|j: int| 0 <= j < i ==> (#[trigger] s[j]).suffix != suffix
}

proof fn lemma_segment_for(s: Seq<EncodedView>, suffix: Seq<char>, u: SegmentUse)
    ensures
        segment_for(s, suffix, u) matches Some(i) ==> is_first_of_suffix(s, i, suffix) && serves(
            s[i].data,
            u,
        ),
        segment_for(s, suffix, u) is None ==> forall|i: int|
            is_first_of_suffix(s, i, suffix) ==> !serves((#[trigger] s[i]).data, u),
{
    let p = has_segment_suffix(suffix);
    lemma_first_index(s, p);
    match first_index(s, p) {
        Some(k) => {
            assert forall|j: int| 0 <= j < k implies (#[trigger] s[j]).suffix != suffix by {
                assert(!p(s[j]));
            }
            assert forall|i: int| is_first_of_suffix(s, i, suffix) implies (#[trigger] s[i]).data
                == s[k].data by {
                if k < i {
                    assert(s[k].suffix != suffix);
                }
            }
        },
        None => {
            assert forall|i: int| is_first_of_suffix(s, i, suffix) implies !serves(
                (#[trigger] s[i]).data,
                u,
            ) by {
                assert(!p(s[i]));
            }
        },
    }
}

/// A scan reads each segment under its own suffix: lengths from the lengths,
/// characters and their boundaries from bytes, and the two numberings from
/// numbers.
pub proof fn scans_read_segments_under_their_suffix(
    fields: Seq<FieldView>,
    lengths: Seq<Option<usize>>,
    segments: Seq<EncodedView>,
    v: ScannedView,
)
    requires
        scanned(fields, lengths, segments) == Some(v),
    ensures
        is_first_of_suffix(segments, v.length, "__length"@),
        segments[v.length].data is Rows,
        is_first_of_suffix(segments, v.chars, "__chars"@),
        segments[v.chars].data is Bytes,
        is_first_of_suffix(segments, v.orig_ind, "__orig_ind"@),
        segments[v.orig_ind].data is Numbers,
        is_first_of_suffix(segments, v.int_ind, "__int_ind"@),
        segments[v.int_ind].data is Numbers,
        is_first_of_suffix(segments, v.bnd, "__bnd"@),
        segments[v.bnd].data is Bytes,
{
    lemma_segment_for(segments, STRING_LENGTH_SUFFIX@, SegmentUse::Rows);
    lemma_segment_for(segments, STRING_CHARS_SUFFIX@, SegmentUse::Bytes);
    lemma_segment_for(segments, STRING_ORIG_IND_SUFFIX@, SegmentUse::Numbers);
    lemma_segment_for(segments, STRING_INT_IND_SUFFIX@, SegmentUse::Numbers);
    lemma_segment_for(segments, STRING_BND_SUFFIX@, SegmentUse::Bytes);
}

/// A string column with all of its five segments, each of the kind it must
/// be, can be scanned.
pub proof fn complete_columns_are_scanned(
    fields: Seq<FieldView>,
    lengths: Seq<Option<usize>>,
    segments: Seq<EncodedView>,
    length: int,
    chars: int,
    orig_ind: int,
    int_ind: int,
    bnd: int,
)
    requires
        is_first_of_suffix(segments, length, "__length"@),
        segments[length].data is Rows,
        is_first_of_suffix(segments, chars, "__chars"@),
        segments[chars].data is Bytes,
        is_first_of_suffix(segments, orig_ind, "__orig_ind"@),
        segments[orig_ind].data is Numbers,
        is_first_of_suffix(segments, int_ind, "__int_ind"@),
        segments[int_ind].data is Numbers,
        is_first_of_suffix(segments, bnd, "__bnd"@),
        segments[bnd].data is Bytes,
    ensures
        scanned(fields, lengths, segments) is Some,
{
    lemma_segment_for(segments, STRING_LENGTH_SUFFIX@, SegmentUse::Rows);
    lemma_segment_for(segments, STRING_CHARS_SUFFIX@, SegmentUse::Bytes);
    lemma_segment_for(segments, STRING_ORIG_IND_SUFFIX@, SegmentUse::Numbers);
    lemma_segment_for(segments, STRING_INT_IND_SUFFIX@, SegmentUse::Numbers);
    lemma_segment_for(segments, STRING_BND_SUFFIX@, SegmentUse::Bytes);
}

/// The strings have as many bytes as their parts together; a null adds
/// nothing.
pub proof fn lengths_add_up(a: Seq<Option<usize>>, b: Seq<Option<usize>>, n: usize)
    ensures
        total_bytes(a + b) == total_bytes(a) + total_bytes(b),
        total_bytes(seq![Some(n)]) == n,
        total_bytes(seq![None]) == 0,
    decreases b.len(),
{
    reveal_with_fuel(total_bytes, 2);
    if b.len() == 0 {
        assert(a + b =~= a);
    } else {
        lengths_add_up(a, b.drop_last(), n);
        assert((a + b).drop_last() =~= a + b.drop_last());
        assert((a + b).last() == b.last());
    }
    assert(seq![Some(n)].drop_last() =~= Seq::<Option<usize>>::empty());
    assert(seq![None::<usize>].drop_last() =~= Seq::<Option<usize>>::empty());
}

/// The characters of the strings are active and the padding behind them is
/// not, and the sizes of the two domains are those of the padded characters
/// and of the rows.
pub proof fn scans_activate_the_characters_of_the_strings(
    fields: Seq<FieldView>,
    lengths: Seq<Option<usize>>,
    segments: Seq<EncodedView>,
    v: ScannedView,
    d: nat,
)
    requires
        scanned(fields, lengths, segments) == Some(v),
    ensures
        segments[v.chars].data matches SegmentData::Bytes { len } ==> (len > 0
            ==> v.char_act.len() == len) && (len == 0 ==> v.char_act.len() == 1),
        forall|i: int|
            0 <= i < v.char_act.len() ==> #[trigger] v.char_act[i] == (i < total_bytes(lengths)),
        v.char_act.len() == pow2(d) ==> v.char_domain == d,
        lengths.len() == pow2(d) ==> v.str_domain == d,
{
    scans_read_segments_under_their_suffix(fields, lengths, segments, v);
    padded_sizes_give_their_domain(d);
    vstd::arithmetic::power2::lemma_pow2_pos(d);
}

/// The numbers and the activity of the strings are those of the row number
/// and of the activator of the input. An input without row numbers counts its
/// strings, and one without an activator has all of them active.
pub proof fn scans_read_rows_from_the_system_columns(
    fields: Seq<FieldView>,
    lengths: Seq<Option<usize>>,
    segments: Seq<EncodedView>,
    v: ScannedView,
)
    requires
        scanned(fields, lengths, segments) == Some(v),
        fields.len() <= usize::MAX,
        lengths.len() <= usize::MAX,
    ensures
        match v.ind {
            RowSource::Column(i) => i < fields.len() && fields[i as int].name == "__row_id__"@,
            RowSource::Count(n) => n == lengths.len() && forall|i: int|
                0 <= i < fields.len() ==> (#[trigger] fields[i]).name != "__row_id__"@,
            RowSource::Ones(_) => false,
        },
        match v.a {
            RowSource::Column(i) => i < fields.len() && fields[i as int].name == "__activator__"@,
            RowSource::Ones(n) => n == lengths.len() && forall|i: int|
                0 <= i < fields.len() ==> (#[trigger] fields[i]).name != "__activator__"@,
            RowSource::Count(_) => false,
        },
{
    let row = is_field(ROW_ID_COL_NAME@);
    let act = is_field(ACTIVATOR_COL_NAME@);
    lemma_first_index(fields, row);
    lemma_first_index(fields, act);
    if first_index(fields, row) is None {
        assert forall|i: int| 0 <= i < fields.len() implies (#[trigger] fields[i]).name
            != "__row_id__"@ by {
            assert(!row(fields[i]));
        }
    }
    if first_index(fields, act) is None {
        assert forall|i: int| 0 <= i < fields.len() implies (#[trigger] fields[i]).name
            != "__activator__"@ by {
            assert(!act(fields[i]));
        }
    }
}

/// The first planned column is that of the string numbers and the others are
/// the marks of the factors, one for each, under labels with their positions.
pub proof fn plans_are_labelled_by_their_factor(factors: nat, j: nat)
    requires
        j < factors,
    ensures
        plan_labels(factors).len() == factors + 1,
        plan_labels(factors)[0] == "__like_orig_ind_plan_hint__"@,
        plan_name(0) == "orig_ind"@,
        plan_labels(factors)[j as int + 1] == "__like_f"@ + decimal(j) + "_mark_plan_hint__"@,
        plan_name(j as int + 1) == "mark"@,
{
}

/// A planned character column has its values and its row numbers, both whole
/// numbers, and nothing of it is committed.
pub proof fn planned_characters_are_not_committed(
    store: Map<Seq<char>, TableConstraintView>,
    name: Seq<char>,
)
    requires
        name != "__row_id__"@,
    ensures
        char_hint(store, name).schema.len() == 2,
        char_hint(store, name).schema[0].field.name == name,
        char_hint(store, name).schema[1].field.name == "__row_id__"@,
        char_hint(store, name).schema[0].field.data_type == TypeView::Int64,
        char_hint(store, name).schema[1].field.data_type == TypeView::Int64,
        char_hint(store, name).flags.len() == 2,
        forall|i: int| 0 <= i < 2 ==> !(#[trigger] char_hint(store, name).flags[i]).1,
{
    let s = char_schema(name);
    let a = s[0].field;
    let b = s[1].field;
    let flags = char_flags(name);
    assert(a != b);
    lemma_flag_after_set(seq![(a, false)], b, false, a);
    lemma_flag_after_set(seq![(a, false)], b, false, b);
    lemma_is_first(seq![(a, false)], flag_of(a), 0);
    assert(!flag_or_true(flags, a));
    assert(!flag_or_true(flags, b));
    normalization_keeps_columns(store, s, flags);
    assert forall|i: int| 0 <= i < 2 implies !(#[trigger] char_hint(store, name).flags[i]).1 by {
        assert(normalized_flags(store, s, flags)[i].1 == flag_or_true(flags, s[i].field));
    }
}

/// Padding keeps the values in front, in order, and adds nothing but zeros
/// behind them.
pub proof fn padding_adds_only_zeros(values: Seq<int>, target: nat, i: int)
    requires
        values.len() <= target,
        0 <= i < target,
    ensures
        padded_values(values, target).len() == target,
        padded_values(values, target).take(values.len() as int) == values,
        i >= values.len() ==> padded_values(values, target)[i] == 0,
{
    assert(padded_values(values, target).take(values.len() as int) =~= values);
}

} // verus!
