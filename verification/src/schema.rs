//! Column types, fields and schemas as plain values.
use crate::metadata::Metadata;
use crate::text::same_text;
use vstd::prelude::*;

verus! {

/// Resolution of a time-like type.
#[derive(Debug, Clone, Copy, PartialEq, Eq, Structural)]
pub enum TimeUnit {
    Second,
    Millisecond,
    Microsecond,
    Nanosecond,
}

/// Resolution of a calendar interval.
#[derive(Debug, Clone, Copy, PartialEq, Eq, Structural)]
pub enum IntervalUnit {
    YearMonth,
    DayTime,
    MonthDayNano,
}

/// Layout of a union type.
#[derive(Debug, Clone, Copy, PartialEq, Eq, Structural)]
pub enum UnionMode {
    Sparse,
    Dense,
}

/// Type of a column.
#[derive(Debug)]
pub enum DataType {
    Null,
    Boolean,
    Int8,
    Int16,
    Int32,
    Int64,
    UInt8,
    UInt16,
    UInt32,
    UInt64,
    Float16,
    Float32,
    Float64,
    Timestamp(TimeUnit, Option<String>),
    Date32,
    Date64,
    Time32(TimeUnit),
    Time64(TimeUnit),
    Duration(TimeUnit),
    Interval(IntervalUnit),
    Binary,
    FixedSizeBinary(i32),
    LargeBinary,
    BinaryView,
    Utf8,
    LargeUtf8,
    Utf8View,
    List(Box<Field>),
    ListView(Box<Field>),
    FixedSizeList(Box<Field>, i32),
    LargeList(Box<Field>),
    LargeListView(Box<Field>),
    Struct(Vec<Field>),
    Union(Vec<i8>, Vec<Field>, UnionMode),
    Dictionary(Box<DataType>, Box<DataType>),
    Decimal128(u8, i8),
    Decimal256(u8, i8),
    MapOf(Box<Field>, bool),
    RunEndEncoded(Box<Field>, Box<Field>),
}

/// A named, typed column description.
#[derive(Debug)]
pub struct Field {
    pub name: String,
    pub data_type: DataType,
    pub nullable: bool,
    pub metadata: Metadata,
}

/// Mathematical counterpart of [`DataType`].
#[verifier::ext_equal]
pub enum TypeView {
    Null,
    Boolean,
    Int8,
    Int16,
    Int32,
    Int64,
    UInt8,
    UInt16,
    UInt32,
    UInt64,
    Float16,
    Float32,
    Float64,
    Timestamp(TimeUnit, Option<Seq<char>>),
    Date32,
    Date64,
    Time32(TimeUnit),
    Time64(TimeUnit),
    Duration(TimeUnit),
    Interval(IntervalUnit),
    Binary,
    FixedSizeBinary(i32),
    LargeBinary,
    BinaryView,
    Utf8,
    LargeUtf8,
    Utf8View,
    List(Box<FieldView>),
    ListView(Box<FieldView>),
    FixedSizeList(Box<FieldView>, i32),
    LargeList(Box<FieldView>),
    LargeListView(Box<FieldView>),
    Struct(Seq<FieldView>),
    Union(Seq<i8>, Seq<FieldView>, UnionMode),
    Dictionary(Box<TypeView>, Box<TypeView>),
    Decimal128(u8, i8),
    Decimal256(u8, i8),
    MapOf(Box<FieldView>, bool),
    RunEndEncoded(Box<FieldView>, Box<FieldView>),
}

/// Mathematical counterpart of [`Field`].
#[verifier::ext_equal]
pub struct FieldView {
    pub name: Seq<char>,
    pub data_type: TypeView,
    pub nullable: bool,
    pub metadata: Map<Seq<char>, Seq<char>>,
}

/// The text of an optional string.
pub open spec fn text_opt(s: Option<String>) -> Option<Seq<char>> {
    match s {
        Some(t) => Some(t@),
        None => None,
    }
}

/// The views of a list of fields.
pub open spec fn fields_view(s: Seq<Field>) -> Seq<FieldView>
    decreases s,
{
    Seq::new(
        s.len(),
        |i: int|
            if 0 <= i < s.len() {
                s[i].view()
            } else {
                arbitrary()
            },
    )
}

impl DataType {
    /// The type as a mathematical value.
    pub open spec fn view(&self) -> TypeView
        decreases self,
    {
        match *self {
            DataType::Null => TypeView::Null,
            DataType::Boolean => TypeView::Boolean,
            DataType::Int8 => TypeView::Int8,
            DataType::Int16 => TypeView::Int16,
            DataType::Int32 => TypeView::Int32,
            DataType::Int64 => TypeView::Int64,
            DataType::UInt8 => TypeView::UInt8,
            DataType::UInt16 => TypeView::UInt16,
            DataType::UInt32 => TypeView::UInt32,
            DataType::UInt64 => TypeView::UInt64,
            DataType::Float16 => TypeView::Float16,
            DataType::Float32 => TypeView::Float32,
            DataType::Float64 => TypeView::Float64,
            DataType::Timestamp(u, tz) => TypeView::Timestamp(u, text_opt(tz)),
            DataType::Date32 => TypeView::Date32,
            DataType::Date64 => TypeView::Date64,
            DataType::Time32(u) => TypeView::Time32(u),
            DataType::Time64(u) => TypeView::Time64(u),
            DataType::Duration(u) => TypeView::Duration(u),
            DataType::Interval(u) => TypeView::Interval(u),
            DataType::Binary => TypeView::Binary,
            DataType::FixedSizeBinary(n) => TypeView::FixedSizeBinary(n),
            DataType::LargeBinary => TypeView::LargeBinary,
            DataType::BinaryView => TypeView::BinaryView,
            DataType::Utf8 => TypeView::Utf8,
            DataType::LargeUtf8 => TypeView::LargeUtf8,
            DataType::Utf8View => TypeView::Utf8View,
            DataType::List(f) => TypeView::List(Box::new(f.view())),
            DataType::ListView(f) => TypeView::ListView(Box::new(f.view())),
            DataType::FixedSizeList(f, n) => TypeView::FixedSizeList(Box::new(f.view()), n),
            DataType::LargeList(f) => TypeView::LargeList(Box::new(f.view())),
            DataType::LargeListView(f) => TypeView::LargeListView(Box::new(f.view())),
            DataType::Struct(fs) => TypeView::Struct(fields_view(fs@)),
            DataType::Union(ids, fs, m) => TypeView::Union(ids@, fields_view(fs@), m),
            DataType::Dictionary(k, v) => TypeView::Dictionary(
                Box::new(k.view()),
                Box::new(v.view()),
            ),
            DataType::Decimal128(p, s) => TypeView::Decimal128(p, s),
            DataType::Decimal256(p, s) => TypeView::Decimal256(p, s),
            DataType::MapOf(f, b) => TypeView::MapOf(Box::new(f.view()), b),
            DataType::RunEndEncoded(a, b) => TypeView::RunEndEncoded(
                Box::new(a.view()),
                Box::new(b.view()),
            ),
        }
    }
}

impl Field {
    /// The field as a mathematical value.
    pub open spec fn view(&self) -> FieldView
        decreases self,
    {
        FieldView {
            name: self.name@,
            data_type: self.data_type.view(),
            nullable: self.nullable,
            metadata: self.metadata@,
        }
    }
}

/// A copy of an optional text.
pub fn copy_text_opt(s: &Option<String>) -> (r: Option<String>)
    ensures
        text_opt(r) == text_opt(*s),
{
    match s {
        Some(t) => Some(t.clone()),
        None => None,
    }
}

/// Whether two optional texts are the same.
pub fn same_text_opt(a: &Option<String>, b: &Option<String>) -> (r: bool)
    ensures
        r == (text_opt(*a) == text_opt(*b)),
{
    match (a, b) {
        (Some(x), Some(y)) => same_text(x.as_str(), y.as_str()),
        (None, None) => true,
        _ => false,
    }
}

fn copy_ids(ids: &Vec<i8>) -> (r: Vec<i8>)
    ensures
        r@ == ids@,
{
    let mut out: Vec<i8> = Vec::new();
    let mut i: usize = 0;
    while i < ids.len()
        invariant
            i <= ids@.len(),
            out@ == ids@.take(i as int),
        decreases ids@.len() - i,
    {
        out.push(ids[i]);
        i = i + 1;
        assert(out@ =~= ids@.take(i as int));
    }
    assert(out@ =~= ids@);
    out
}

fn same_ids(a: &Vec<i8>, b: &Vec<i8>) -> (r: bool)
    ensures
        r == (a@ == b@),
{
    if a.len() != b.len() {
        return false;
    }
    let mut i: usize = 0;
    while i < a.len()
        invariant
            i <= a@.len(),
            a@.len() == b@.len(),
            forall|j: int| 0 <= j < i ==> a@[j] == b@[j],
        decreases a@.len() - i,
    {
        if a[i] != b[i] {
            assert(a@[i as int] != b@[i as int]);
            return false;
        }
        i = i + 1;
    }
    assert(a@ =~= b@);
    true
}

/// Copies of the fields, in order.
pub fn copy_fields(fields: &Vec<Field>) -> (r: Vec<Field>)
    ensures
        fields_view(r@) == fields_view(fields@),
    decreases fields,
{
    let mut out: Vec<Field> = Vec::new();
    let mut i: usize = 0;
    while i < fields.len()
        invariant
            i <= fields@.len(),
            out@.len() == i,
            forall|j: int| 0 <= j < i ==> (#[trigger] out@[j]).view() == fields@[j].view(),
        decreases fields@.len() - i,
    {
        let f = fields[i].copy();
        out.push(f);
        i = i + 1;
    }
    assert(fields_view(out@) =~= fields_view(fields@));
    out
}

/// Whether the two lists hold equal fields in the same order.
pub fn same_fields(a: &Vec<Field>, b: &Vec<Field>) -> (r: bool)
    ensures
        r == (fields_view(a@) == fields_view(b@)),
    decreases a,
{
    if a.len() != b.len() {
        assert(fields_view(a@).len() != fields_view(b@).len());
        return false;
    }
    let mut i: usize = 0;
    while i < a.len()
        invariant
            i <= a@.len(),
            a@.len() == b@.len(),
            forall|j: int| 0 <= j < i ==> (#[trigger] a@[j]).view() == b@[j].view(),
        decreases a@.len() - i,
    {
        if !a[i].same(&b[i]) {
            assert(fields_view(a@)[i as int] != fields_view(b@)[i as int]);
            return false;
        }
        i = i + 1;
    }
    assert(fields_view(a@) =~= fields_view(b@));
    true
}

impl DataType {
    /// An equal type.
    pub fn copy(&self) -> (r: DataType)
        ensures
            r@ == self@,
        decreases self,
    {
        match self {
            DataType::Null => DataType::Null,
            DataType::Boolean => DataType::Boolean,
            DataType::Int8 => DataType::Int8,
            DataType::Int16 => DataType::Int16,
            DataType::Int32 => DataType::Int32,
            DataType::Int64 => DataType::Int64,
            DataType::UInt8 => DataType::UInt8,
            DataType::UInt16 => DataType::UInt16,
            DataType::UInt32 => DataType::UInt32,
            DataType::UInt64 => DataType::UInt64,
            DataType::Float16 => DataType::Float16,
            DataType::Float32 => DataType::Float32,
            DataType::Float64 => DataType::Float64,
            DataType::Timestamp(u, tz) => DataType::Timestamp(*u, copy_text_opt(tz)),
            DataType::Date32 => DataType::Date32,
            DataType::Date64 => DataType::Date64,
            DataType::Time32(u) => DataType::Time32(*u),
            DataType::Time64(u) => DataType::Time64(*u),
            DataType::Duration(u) => DataType::Duration(*u),
            DataType::Interval(u) => DataType::Interval(*u),
            DataType::Binary => DataType::Binary,
            DataType::FixedSizeBinary(n) => DataType::FixedSizeBinary(*n),
            DataType::LargeBinary => DataType::LargeBinary,
            DataType::BinaryView => DataType::BinaryView,
            DataType::Utf8 => DataType::Utf8,
            DataType::LargeUtf8 => DataType::LargeUtf8,
            DataType::Utf8View => DataType::Utf8View,
            DataType::List(f) => DataType::List(Box::new(f.copy())),
            DataType::ListView(f) => DataType::ListView(Box::new(f.copy())),
            DataType::FixedSizeList(f, n) => DataType::FixedSizeList(Box::new(f.copy()), *n),
            DataType::LargeList(f) => DataType::LargeList(Box::new(f.copy())),
            DataType::LargeListView(f) => DataType::LargeListView(Box::new(f.copy())),
            DataType::Struct(fs) => DataType::Struct(copy_fields(fs)),
            DataType::Union(ids, fs, m) => DataType::Union(copy_ids(ids), copy_fields(fs), *m),
            DataType::Dictionary(k, v) => DataType::Dictionary(
                Box::new(k.copy()),
                Box::new(v.copy()),
            ),
            DataType::Decimal128(p, s) => DataType::Decimal128(*p, *s),
            DataType::Decimal256(p, s) => DataType::Decimal256(*p, *s),
            DataType::MapOf(f, b) => DataType::MapOf(Box::new(f.copy()), *b),
            DataType::RunEndEncoded(a, b) => DataType::RunEndEncoded(
                Box::new(a.copy()),
                Box::new(b.copy()),
            ),
        }
    }

    /// Whether the two types are equal.
    pub fn same(&self, other: &DataType) -> (r: bool)
        ensures
            r == (self@ == other@),
        decreases self,
    {
        match (self, other) {
            (DataType::Null, DataType::Null) => true,
            (DataType::Boolean, DataType::Boolean) => true,
            (DataType::Int8, DataType::Int8) => true,
            (DataType::Int16, DataType::Int16) => true,
            (DataType::Int32, DataType::Int32) => true,
            (DataType::Int64, DataType::Int64) => true,
            (DataType::UInt8, DataType::UInt8) => true,
            (DataType::UInt16, DataType::UInt16) => true,
            (DataType::UInt32, DataType::UInt32) => true,
            (DataType::UInt64, DataType::UInt64) => true,
            (DataType::Float16, DataType::Float16) => true,
            (DataType::Float32, DataType::Float32) => true,
            (DataType::Float64, DataType::Float64) => true,
            (DataType::Timestamp(u, a), DataType::Timestamp(v, b)) => *u == *v && same_text_opt(
                a,
                b,
            ),
            (DataType::Date32, DataType::Date32) => true,
            (DataType::Date64, DataType::Date64) => true,
            (DataType::Time32(u), DataType::Time32(v)) => *u == *v,
            (DataType::Time64(u), DataType::Time64(v)) => *u == *v,
            (DataType::Duration(u), DataType::Duration(v)) => *u == *v,
            (DataType::Interval(u), DataType::Interval(v)) => *u == *v,
            (DataType::Binary, DataType::Binary) => true,
            (DataType::FixedSizeBinary(n), DataType::FixedSizeBinary(m)) => *n == *m,
            (DataType::LargeBinary, DataType::LargeBinary) => true,
            (DataType::BinaryView, DataType::BinaryView) => true,
            (DataType::Utf8, DataType::Utf8) => true,
            (DataType::LargeUtf8, DataType::LargeUtf8) => true,
            (DataType::Utf8View, DataType::Utf8View) => true,
            (DataType::List(a), DataType::List(b)) => a.same(b),
            (DataType::ListView(a), DataType::ListView(b)) => a.same(b),
            (DataType::FixedSizeList(a, n), DataType::FixedSizeList(b, m)) => *n == *m && a.same(
                b,
            ),
            (DataType::LargeList(a), DataType::LargeList(b)) => a.same(b),
            (DataType::LargeListView(a), DataType::LargeListView(b)) => a.same(b),
            (DataType::Struct(a), DataType::Struct(b)) => same_fields(a, b),
            (DataType::Union(i, a, m), DataType::Union(j, b, n)) => *m == *n && same_ids(i, j)
                && same_fields(a, b),
            (DataType::Dictionary(a, b), DataType::Dictionary(c, d)) => a.same(c) && b.same(d),
            (DataType::Decimal128(p, s), DataType::Decimal128(q, t)) => *p == *q && *s == *t,
            (DataType::Decimal256(p, s), DataType::Decimal256(q, t)) => *p == *q && *s == *t,
            (DataType::MapOf(a, k), DataType::MapOf(b, l)) => *k == *l && a.same(b),
            (DataType::RunEndEncoded(a, b), DataType::RunEndEncoded(c, d)) => a.same(c) && b.same(
                d,
            ),
            _ => false,
        }
    }
}

impl Field {
    /// A field without annotations.
    pub fn new(name: &str, data_type: DataType, nullable: bool) -> (r: Field)
        ensures
            r@ == plain_field(name@, data_type@, nullable),
    {
        Field { name: name.to_owned(), data_type, nullable, metadata: Metadata::new() }
    }

    /// This field with other annotations.
    pub fn with_metadata(self, metadata: Metadata) -> (r: Field)
        ensures
            r@ == (FieldView { metadata: metadata@, ..self@ }),
    {
        Field { name: self.name, data_type: self.data_type, nullable: self.nullable, metadata }
    }

    /// This field under another name.
    pub fn with_name(self, name: &str) -> (r: Field)
        ensures
            r@ == (FieldView { name: name@, ..self@ }),
    {
        Field {
            name: name.to_owned(),
            data_type: self.data_type,
            nullable: self.nullable,
            metadata: self.metadata,
        }
    }

    /// An equal field.
    pub fn copy(&self) -> (r: Field)
        ensures
            r@ == self@,
        decreases self,
    {
        Field {
            name: self.name.clone(),
            data_type: self.data_type.copy(),
            nullable: self.nullable,
            metadata: self.metadata.copy(),
        }
    }

    /// Whether the two fields agree in name, type, nullability and
    /// annotations.
    pub fn same(&self, other: &Field) -> (r: bool)
        ensures
            r == (self@ == other@),
        decreases self,
    {
        same_text(self.name.as_str(), other.name.as_str()) && self.nullable == other.nullable
            && self.metadata.same(&other.metadata) && self.data_type.same(&other.data_type)
    }
}

/// A field without annotations.
pub open spec fn plain_field(name: Seq<char>, data_type: TypeView, nullable: bool) -> FieldView {
    FieldView { name, data_type, nullable, metadata: Map::empty() }
}

} // verus!
