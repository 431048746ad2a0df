//! The parts that a table schema is made of.

use vstd::prelude::*;
use crate::error::{Error, ErrorView};
use crate::text::{all_word_chars, is_letter, push_decimal, same_text, to_chars};

verus! {

/// The scalar types that a column can hold. The names that end in `N`
/// are the nullable ones.
#[derive(Clone, Copy, Debug, PartialEq, Eq, Structural)]
pub enum Datatype {
    U8,
    U8N,
    I8,
    I8N,
    U16,
    U16N,
    I16,
    I16N,
    U32,
    U32N,
    I32,
    I32N,
    U64,
    U64N,
    I64,
    I64N,
    F32,
    F32N,
    F64,
    F64N,
    Date,
    DateN,
    DateTime,
    DateTimeN,
}

/// The type that a nullable type leaves out `NULL` from; a type that is
/// not nullable stands for itself.
pub open spec fn base_type(d: Datatype) -> Datatype {
    match d {
        Datatype::U8N => Datatype::U8,
        Datatype::I8N => Datatype::I8,
        Datatype::U16N => Datatype::U16,
        Datatype::I16N => Datatype::I16,
        Datatype::U32N => Datatype::U32,
        Datatype::I32N => Datatype::I32,
        Datatype::U64N => Datatype::U64,
        Datatype::I64N => Datatype::I64,
        Datatype::F32N => Datatype::F32,
        Datatype::F64N => Datatype::F64,
        Datatype::DateN => Datatype::Date,
        Datatype::DateTimeN => Datatype::DateTime,
        _ => d,
    }
}

pub open spec fn is_nullable_type(d: Datatype) -> bool {
    base_type(d) != d
}

pub open spec fn is_temporal_type(d: Datatype) -> bool {
    base_type(d) == Datatype::Date || base_type(d) == Datatype::DateTime
}

/// The SQL name of a type that is not nullable.
pub open spec fn base_type_name(d: Datatype) -> Seq<char> {
    match d {
        Datatype::U8 => "UInt8"@,
        Datatype::I8 => "Int8"@,
        Datatype::U16 => "UInt16"@,
        Datatype::I16 => "Int16"@,
        Datatype::U32 => "UInt32"@,
        Datatype::I32 => "Int32"@,
        Datatype::U64 => "UInt64"@,
        Datatype::I64 => "Int64"@,
        Datatype::F32 => "Float32"@,
        Datatype::F64 => "Float64"@,
        Datatype::Date => "Date"@,
        _ => "DateTime"@,
    }
}

/// The SQL name of a type.
pub open spec fn sqltype_name(d: Datatype) -> Seq<char> {
    if is_nullable_type(d) {
        "Nullable("@ + base_type_name(base_type(d)) + ")"@
    } else {
        base_type_name(d)
    }
}

impl Datatype {
    /// The type without `NULL`.
    pub fn base(&self) -> (d: Datatype)
        ensures
            d == base_type(*self),
    {
        match self {
            Datatype::U8N => Datatype::U8,
            Datatype::I8N => Datatype::I8,
            Datatype::U16N => Datatype::U16,
            Datatype::I16N => Datatype::I16,
            Datatype::U32N => Datatype::U32,
            Datatype::I32N => Datatype::I32,
            Datatype::U64N => Datatype::U64,
            Datatype::I64N => Datatype::I64,
            Datatype::F32N => Datatype::F32,
            Datatype::F64N => Datatype::F64,
            Datatype::DateN => Datatype::Date,
            Datatype::DateTimeN => Datatype::DateTime,
            other => *other,
        }
    }

    pub fn is_nullable(&self) -> (b: bool)
        ensures
            b == is_nullable_type(*self),
    {
        self.base() != *self
    }

    pub fn is_temporal(&self) -> (b: bool)
        ensures
            b == is_temporal_type(*self),
    {
        let base = self.base();
        base == Datatype::Date || base == Datatype::DateTime
    }

    /// The SQL name of the type.
    pub fn sqltype(&self) -> (name: String)
        ensures
            name@ == sqltype_name(*self),
    {
        let base = match self.base() {
            Datatype::U8 => "UInt8",
            Datatype::I8 => "Int8",
            Datatype::U16 => "UInt16",
            Datatype::I16 => "Int16",
            Datatype::U32 => "UInt32",
            Datatype::I32 => "Int32",
            Datatype::U64 => "UInt64",
            Datatype::I64 => "Int64",
            Datatype::F32 => "Float32",
            Datatype::F64 => "Float64",
            Datatype::Date => "Date",
            _ => "DateTime",
        };
        let mut name = String::new();
        if self.is_nullable() {
            name.append("Nullable(");
            name.append(base);
            name.append(")");
        } else {
            name.append(base);
            assert(name@ =~= base@);
        }
        name
    }

    /// The SQL name of the type.
    pub fn to_string(&self) -> (name: String)
        ensures
            name@ == sqltype_name(*self),
    {
        self.sqltype()
    }
}

/// The type that is not nullable and has the SQL name `name`.
pub open spec fn base_type_named(name: Seq<char>) -> Option<Datatype> {
    if name == "UInt8"@ {
        Some(Datatype::U8)
    } else     if name == "Int8"@ {
        Some(Datatype::I8)
    } else     if name == "UInt16"@ {
        Some(Datatype::U16)
    } else     if name == "Int16"@ {
        Some(Datatype::I16)
    } else     if name == "UInt32"@ {
        Some(Datatype::U32)
    } else     if name == "Int32"@ {
        Some(Datatype::I32)
    } else     if name == "UInt64"@ {
        Some(Datatype::U64)
    } else     if name == "Int64"@ {
        Some(Datatype::I64)
    } else     if name == "Float32"@ {
        Some(Datatype::F32)
    } else     if name == "Float64"@ {
        Some(Datatype::F64)
    } else     if name == "Date"@ {
        Some(Datatype::Date)
    } else     if name == "DateTime"@ {
        Some(Datatype::DateTime)
    } else {
        None
    }
}

/// The nullable type of a type that is not nullable.
pub open spec fn nullable_of(d: Datatype) -> Datatype {
    match d {
            Datatype::U8 => Datatype::U8N,
            Datatype::I8 => Datatype::I8N,
            Datatype::U16 => Datatype::U16N,
            Datatype::I16 => Datatype::I16N,
            Datatype::U32 => Datatype::U32N,
            Datatype::I32 => Datatype::I32N,
            Datatype::U64 => Datatype::U64N,
            Datatype::I64 => Datatype::I64N,
            Datatype::F32 => Datatype::F32N,
            Datatype::F64 => Datatype::F64N,
            Datatype::Date => Datatype::DateN,
            Datatype::DateTime => Datatype::DateTimeN,
            _ => d,
    }
}

/// The type that has the SQL name `name`.
pub open spec fn type_named(name: Seq<char>) -> Option<Datatype> {
    if "Nullable("@.is_prefix_of(name) && name.len() >= 10 && name.last() == ')' {
        match base_type_named(name.subrange(9, name.len() - 1)) {
            Some(d) => Some(nullable_of(d)),
            None => None,
        }
    } else {
        base_type_named(name)
    }
}

/// The type that is not nullable and has the SQL name `name`.
fn base_from_sqltype(name: &str) -> (d: Option<Datatype>)
    ensures
        d == base_type_named(name@),
{
    if same_text(name, "UInt8") {
        return Some(Datatype::U8);
    }
    if same_text(name, "Int8") {
        return Some(Datatype::I8);
    }
    if same_text(name, "UInt16") {
        return Some(Datatype::U16);
    }
    if same_text(name, "Int16") {
        return Some(Datatype::I16);
    }
    if same_text(name, "UInt32") {
        return Some(Datatype::U32);
    }
    if same_text(name, "Int32") {
        return Some(Datatype::I32);
    }
    if same_text(name, "UInt64") {
        return Some(Datatype::U64);
    }
    if same_text(name, "Int64") {
        return Some(Datatype::I64);
    }
    if same_text(name, "Float32") {
        return Some(Datatype::F32);
    }
    if same_text(name, "Float64") {
        return Some(Datatype::F64);
    }
    if same_text(name, "Date") {
        return Some(Datatype::Date);
    }
    if same_text(name, "DateTime") {
        return Some(Datatype::DateTime);
    }
    None
}

impl Datatype {
    /// The type that has the SQL name `sqltype`; a name of no type that
    /// a column can hold is an error.
    pub fn from_sqltype(sqltype: &str) -> (r: Result<Datatype, Error>)
        ensures
            match type_named(sqltype@) {
                Some(d) => r == Ok::<Datatype, Error>(d),
                None => r is Err && r->Err_0@ == ErrorView::UnknownDatatype(sqltype@),
            },
    {
        let v = to_chars(sqltype);
        let marker = to_chars("Nullable(");
        proof {
            reveal_strlit("Nullable(");
        }
        assert(v@.skip(0) =~= v@);
        let found = if crate::text::has_prefix_at(&v, 0, &marker) && v.len() >= 10 && v[v.len() - 1]
            == ')' {
            let inner = crate::text::string_of(&v, 9, v.len() - 1);
            match base_from_sqltype(inner.as_str()) {
                Some(d) => Some(d.nullable()),
                None => None,
            }
        } else {
            base_from_sqltype(sqltype)
        };
        match found {
            Some(d) => Ok(d),
            None => Err(Error::UnknownDatatype(String::from_str(sqltype))),
        }
    }

    /// The nullable type of this type.
    pub fn nullable(&self) -> (d: Datatype)
        ensures
            d == nullable_of(*self),
    {
        match self {
            Datatype::U8 => Datatype::U8N,
            Datatype::I8 => Datatype::I8N,
            Datatype::U16 => Datatype::U16N,
            Datatype::I16 => Datatype::I16N,
            Datatype::U32 => Datatype::U32N,
            Datatype::I32 => Datatype::I32N,
            Datatype::U64 => Datatype::U64N,
            Datatype::I64 => Datatype::I64N,
            Datatype::F32 => Datatype::F32N,
            Datatype::F64 => Datatype::F64N,
            Datatype::Date => Datatype::DateN,
            Datatype::DateTime => Datatype::DateTimeN,
            other => *other,
        }
    }
}

/// The SQL name of a type is the name of that type.
pub proof fn lemma_type_named(d: Datatype)
    ensures
        type_named(sqltype_name(d)) == Some(d),
{
    reveal_strlit("UInt8");
    reveal_strlit("Int8");
    reveal_strlit("UInt16");
    reveal_strlit("Int16");
    reveal_strlit("UInt32");
    reveal_strlit("Int32");
    reveal_strlit("UInt64");
    reveal_strlit("Int64");
    reveal_strlit("Float32");
    reveal_strlit("Float64");
    reveal_strlit("Date");
    reveal_strlit("DateTime");
    reveal_strlit("Nullable(");
    reveal_strlit(")");
    assert("UInt8"@.len() == 5);
    assert("UInt8"@[0] == 'U');
    assert("UInt8"@[3] == 't');
    assert("UInt8"@[4] == '8');
    assert("Int8"@.len() == 4);
    assert("Int8"@[0] == 'I');
    assert("Int8"@[3] == '8');
    assert("UInt16"@.len() == 6);
    assert("UInt16"@[0] == 'U');
    assert("UInt16"@[3] == 't');
    assert("UInt16"@[4] == '1');
    assert("UInt16"@[5] == '6');
    assert("Int16"@.len() == 5);
    assert("Int16"@[0] == 'I');
    assert("Int16"@[3] == '1');
    assert("Int16"@[4] == '6');
    assert("UInt32"@.len() == 6);
    assert("UInt32"@[0] == 'U');
    assert("UInt32"@[3] == 't');
    assert("UInt32"@[4] == '3');
    assert("UInt32"@[5] == '2');
    assert("Int32"@.len() == 5);
    assert("Int32"@[0] == 'I');
    assert("Int32"@[3] == '3');
    assert("Int32"@[4] == '2');
    assert("UInt64"@.len() == 6);
    assert("UInt64"@[0] == 'U');
    assert("UInt64"@[3] == 't');
    assert("UInt64"@[4] == '6');
    assert("UInt64"@[5] == '4');
    assert("Int64"@.len() == 5);
    assert("Int64"@[0] == 'I');
    assert("Int64"@[3] == '6');
    assert("Int64"@[4] == '4');
    assert("Float32"@.len() == 7);
    assert("Float32"@[0] == 'F');
    assert("Float32"@[3] == 'a');
    assert("Float32"@[4] == 't');
    assert("Float32"@[5] == '3');
    assert("Float64"@.len() == 7);
    assert("Float64"@[0] == 'F');
    assert("Float64"@[3] == 'a');
    assert("Float64"@[4] == 't');
    assert("Float64"@[5] == '6');
    assert("Date"@.len() == 4);
    assert("Date"@[0] == 'D');
    assert("Date"@[3] == 'e');
    assert("DateTime"@.len() == 8);
    assert("DateTime"@[0] == 'D');
    assert("DateTime"@[3] == 'e');
    assert("DateTime"@[4] == 'T');
    assert("DateTime"@[5] == 'i');
    let name = sqltype_name(d);
    let base = base_type_name(base_type(d));
    if is_nullable_type(d) {
        assert(name =~= "Nullable("@ + base + ")"@);
        assert("Nullable("@ =~= name.subrange(0, 9));
        assert(name.subrange(9, name.len() - 1) =~= base);
        assert(base_type_named(base) == Some(base_type(d)));
    } else {
        assert(name == base);
        assert(!"Nullable("@.is_prefix_of(name)) by {
            if "Nullable("@.is_prefix_of(name) {
                assert(name.subrange(0, 9)[0] == name[0]);
                assert(name.subrange(0, 9)[1] == name[1]);
            }
        }
    }
}

/// A column of one scalar type, and its place in the sorting key, if it has one.
#[derive(Clone, Copy, Debug, PartialEq, Eq, Structural)]
pub struct SimpleColumn {
    pub datatype: Datatype,
    /// Position in the sorting key of the table.
    pub order_key_position: Option<u8>,
}

impl SimpleColumn {
    pub fn new(datatype: Datatype, order_key_position: Option<u8>) -> (c: Self)
        ensures
            c == (SimpleColumn { datatype, order_key_position }),
    {
        SimpleColumn { datatype, order_key_position }
    }
}

/// How the values of a column are combined when cells are merged into
/// their parent.
#[derive(Clone, Copy, Debug, PartialEq, Eq, Structural)]
pub enum AggregationMethod {
    RelativeToCellArea,
    Sum,
    Max,
    Min,
    Average,
}

#[derive(Clone, Copy, Debug, PartialEq, Eq, Structural)]
pub enum ColumnDefinition {
    /// The column of the cell index: always `UInt64`, and first in the sorting key.
    H3Index,
    Simple(SimpleColumn),
    WithAggregation(SimpleColumn, AggregationMethod),
}

/// The type of the values of a column.
pub open spec fn column_datatype(def: ColumnDefinition) -> Datatype {
    match def {
        ColumnDefinition::H3Index => Datatype::U64,
        ColumnDefinition::Simple(c) => c.datatype,
        ColumnDefinition::WithAggregation(c, _) => c.datatype,
    }
}

/// The place of a column in the sorting key, where it declares one.
pub open spec fn column_key_position(def: ColumnDefinition) -> Option<u8> {
    match def {
        ColumnDefinition::H3Index => None,
        ColumnDefinition::Simple(c) => c.order_key_position,
        ColumnDefinition::WithAggregation(c, _) => c.order_key_position,
    }
}

impl ColumnDefinition {
    pub fn datatype(&self) -> (d: Datatype)
        ensures
            d == column_datatype(*self),
    {
        match self {
            ColumnDefinition::H3Index => Datatype::U64,
            ColumnDefinition::Simple(c) => c.datatype,
            ColumnDefinition::WithAggregation(c, _) => c.datatype,
        }
    }

    pub fn order_key_position(&self) -> (p: Option<u8>)
        ensures
            p == column_key_position(*self),
    {
        match self {
            ColumnDefinition::H3Index => None,
            ColumnDefinition::Simple(c) => c.order_key_position,
            ColumnDefinition::WithAggregation(c, _) => c.order_key_position,
        }
    }
}

#[derive(Debug, PartialEq, Eq)]
pub enum TableEngine {
    ReplacingMergeTree,
    /// Sums the named columns of rows with the same sorting key.
    SummingMergeTree(Vec<String>),
    AggregatingMergeTree,
}

/// Mathematical value of a [`TableEngine`].
pub enum TableEngineView {
    ReplacingMergeTree,
    SummingMergeTree(Seq<Seq<char>>),
    AggregatingMergeTree,
}

impl View for TableEngine {
    type V = TableEngineView;

    open spec fn view(&self) -> TableEngineView {
        match self {
            TableEngine::ReplacingMergeTree => TableEngineView::ReplacingMergeTree,
            TableEngine::SummingMergeTree(columns) => TableEngineView::SummingMergeTree(
                crate::text::texts(columns@),
            ),
            TableEngine::AggregatingMergeTree => TableEngineView::AggregatingMergeTree,
        }
    }
}

impl Default for TableEngine {
    fn default() -> (e: Self)
        ensures
            e@ == TableEngineView::ReplacingMergeTree,
    {
        TableEngine::ReplacingMergeTree
    }
}

/// A copy of a list of strings.
pub(crate) fn clone_strings(list: &Vec<String>) -> (copy: Vec<String>)
    ensures
        crate::text::texts(copy@) == crate::text::texts(list@),
{
    let mut copy: Vec<String> = Vec::new();
    let mut i: usize = 0;
    while i < list.len()
        invariant
            i <= list.len(),
            crate::text::texts(copy@) == crate::text::texts(list@.take(i as int)),
        decreases list.len() - i,
    {
        let ghost before = copy@;
        copy.push(list[i].clone());
        assert(crate::text::texts(copy@) =~= crate::text::texts(before).push(list@[i as int]@));
        assert(crate::text::texts(list@.take(i + 1)) =~= crate::text::texts(
            list@.take(i as int),
        ).push(list@[i as int]@));
        i += 1;
    }
    assert(list@.take(list@.len() as int) =~= list@);
    copy
}

impl Clone for TableEngine {
    fn clone(&self) -> (e: Self)
        ensures
            e@ == self@,
    {
        match self {
            TableEngine::ReplacingMergeTree => TableEngine::ReplacingMergeTree,
            TableEngine::SummingMergeTree(columns) => TableEngine::SummingMergeTree(
                clone_strings(columns),
            ),
            TableEngine::AggregatingMergeTree => TableEngine::AggregatingMergeTree,
        }
    }
}

#[derive(Clone, Copy, Debug, PartialEq, Eq, Structural)]
pub enum CompressionMethod {
    LZ4HC(u8),
    ZSTD(u8),
}

/// Whether the compression level is one that the method has.
pub open spec fn is_compression(m: CompressionMethod) -> bool {
    match m {
        CompressionMethod::LZ4HC(level) => level <= 12,
        CompressionMethod::ZSTD(level) => 1 <= level <= 22,
    }
}

/// How the compression is written in a column's codec.
pub open spec fn codec_text(m: CompressionMethod) -> Seq<char> {
    match m {
        CompressionMethod::LZ4HC(level) => "LZ4HC("@ + crate::text::decimal(level as nat) + ")"@,
        CompressionMethod::ZSTD(level) => "ZSTD("@ + crate::text::decimal(level as nat) + ")"@,
    }
}

impl Default for CompressionMethod {
    fn default() -> (m: Self)
        ensures
            m == CompressionMethod::ZSTD(6),
    {
        CompressionMethod::ZSTD(6)
    }
}

impl CompressionMethod {
    /// Accepts the levels 0 to 12 of LZ4HC and 1 to 22 of ZSTD.
    pub fn validate(&self) -> (r: Result<(), Error>)
        ensures
            is_compression(*self) ==> r is Ok,
            !is_compression(*self) ==> r is Err && r->Err_0@ == ErrorView::SchemaValidationError(
                "CompressionMethod"@,
                "compression level out of range"@,
            ),
    {
        let ok = match self {
            CompressionMethod::LZ4HC(level) => *level <= 12,
            CompressionMethod::ZSTD(level) => 1 <= *level && *level <= 22,
        };
        if ok {
            Ok(())
        } else {
            Err(
                Error::SchemaValidationError(
                    String::from_str("CompressionMethod"),
                    String::from_str("compression level out of range"),
                ),
            )
        }
    }

    /// How the compression is written in a column's codec.
    pub fn codec(&self) -> (text: String)
        ensures
            text@ == codec_text(*self),
    {
        let mut text = String::new();
        match self {
            CompressionMethod::LZ4HC(level) => {
                text.append("LZ4HC(");
                push_decimal(&mut text, *level as u64);
            },
            CompressionMethod::ZSTD(level) => {
                text.append("ZSTD(");
                push_decimal(&mut text, *level as u64);
            },
        }
        text.append(")");
        assert(text@ =~= codec_text(*self));
        text
    }
}

/// How finely the time of a row is kept.
#[derive(Clone, Copy, Debug, PartialEq, Eq, Structural)]
pub enum TemporalResolution {
    Second,
    Day,
}

impl Default for TemporalResolution {
    fn default() -> (r: Self)
        ensures
            r == TemporalResolution::Second,
    {
        TemporalResolution::Second
    }
}

/// By which span of time the tables are partitioned.
#[derive(Clone, Copy, Debug, PartialEq, Eq, Structural)]
pub enum TemporalPartitioning {
    Year,
    Month,
}

impl Default for TemporalPartitioning {
    fn default() -> (p: Self)
        ensures
            p == TemporalPartitioning::Month,
    {
        TemporalPartitioning::Month
    }
}

/// A table name is a letter followed by word characters.
pub open spec fn is_table_name(name: Seq<char>) -> bool {
    name.len() >= 1 && is_letter(name[0]) && all_word_chars(name)
}

/// Accepts the names that consist of a letter followed by letters, digits
/// and `_`; any other is reported as a fault of the schema part `location`.
pub fn validate_table_name(location: &str, table_name: &str) -> (r: Result<(), Error>)
    ensures
        is_table_name(table_name@) ==> r is Ok,
        !is_table_name(table_name@) ==> r is Err && r->Err_0@ == ErrorView::SchemaValidationError(
            location@,
            "invalid table name"@,
        ),
{
    let v = to_chars(table_name);
    let ok = v.len() >= 1 && crate::table::is_letter_char(v[0]) && crate::table::word_run_end(&v, 0)
        == v.len();
    if ok {
        Ok(())
    } else {
        Err(
            Error::SchemaValidationError(
                String::from_str(location),
                String::from_str("invalid table name"),
            ),
        )
    }
}

} // verus!
