//! The schema of a family of compacted tables, and the statements that
//! create its tables.

use vstd::prelude::*;
use crate::error::{Error, ErrorView};
use crate::order::{
    chars_less, leading, lemma_leading, lemma_leading_is_run, lemma_less_asymmetric,
    lemma_less_irreflexive, lemma_less_total, lemma_less_transitive, text_less,
};
use crate::schema::{
    clone_strings, codec_text, column_datatype, column_key_position, is_compression,
    is_table_name, is_temporal_type, sqltype_name, validate_table_name, ColumnDefinition,
    CompressionMethod, TableEngine, TableEngineView, TemporalPartitioning, TemporalResolution,
};
use crate::table::{table_name, Table, TableSpec, TableSpecView, TableView};
use crate::text::{join, joined, same_text, texts, to_chars};

verus! {

/// A column of a schema: its name and what it holds.
pub type Column = (Seq<char>, ColumnDefinition);

/// The columns of a list, each by its value.
pub open spec fn schema_columns(columns: Seq<(String, ColumnDefinition)>) -> Seq<Column> {
    columns.map_values(|c: (String, ColumnDefinition)| (c.0@, c.1))
}

/// Whether the columns stand in the order of their names, each name once.
pub open spec fn names_rising(columns: Seq<Column>) -> bool {
    forall|i: int, j: int|
        0 <= i < j < columns.len() ==> text_less((#[trigger] columns[i]).0, (#[trigger] columns[j]).0)
}

/// The place among `columns` where the column `name` stands or belongs:
/// behind all columns whose names stand before `name`.
pub open spec fn place_of(columns: Seq<Column>, name: Seq<char>) -> int {
    leading(columns, |c: Column| text_less(c.0, name))
}

/// Whether `columns` has a column `name`.
pub open spec fn has_column(columns: Seq<Column>, name: Seq<char>) -> bool {
    place_of(columns, name) < columns.len() && columns[place_of(columns, name)].0 == name
}

/// What the column `name` of `columns` holds.
pub open spec fn column_of(columns: Seq<Column>, name: Seq<char>) -> Option<ColumnDefinition> {
    if has_column(columns, name) {
        Some(columns[place_of(columns, name)].1)
    } else {
        None
    }
}

/// The columns with `name` holding `def`: in place of what it held
/// before, or else put in where the order of the names has it.
pub open spec fn with_column(columns: Seq<Column>, name: Seq<char>, def: ColumnDefinition) -> Seq<
    Column,
> {
    let p = place_of(columns, name);
    if has_column(columns, name) {
        columns.update(p, (name, def))
    } else {
        columns.insert(p, (name, def))
    }
}

/// Among columns in the order of their names, the column `name` is
/// found at its place, and nowhere else.
pub proof fn lemma_place_finds(columns: Seq<Column>, name: Seq<char>)
    requires
        names_rising(columns),
    ensures
        0 <= place_of(columns, name) <= columns.len(),
        forall|i: int|
            0 <= i < columns.len() && (#[trigger] columns[i]).0 == name ==> i == place_of(
                columns,
                name,
            ),
        forall|i: int|
            0 <= i < place_of(columns, name) ==> text_less((#[trigger] columns[i]).0, name),
        forall|i: int|
            place_of(columns, name) <= i < columns.len() ==> !text_less(
                (#[trigger] columns[i]).0,
                name,
            ),
{
    let keep = |c: Column| text_less(c.0, name);
    let p = place_of(columns, name);
    lemma_leading_is_run(columns, keep);
    assert forall|i: int| p <= i < columns.len() implies !text_less(
        (#[trigger] columns[i]).0,
        name,
    ) by {
        if i > p && text_less(columns[i].0, name) {
            assert(text_less(columns[p].0, columns[i].0));
            lemma_less_transitive(columns[p].0, columns[i].0, name);
            assert(keep(columns[p]));
        }
    }
    assert forall|i: int| 0 <= i < columns.len() && (#[trigger] columns[i]).0 == name implies i
        == p by {
        lemma_less_irreflexive(name);
        if i < p {
            assert(keep(columns[i]));
        } else if i > p {
            assert(text_less(columns[p].0, columns[i].0));
            assert(keep(columns[p]));
        }
    }
}

/// Adding a column keeps the columns in the order of their names.
pub proof fn lemma_with_column_rising(columns: Seq<Column>, name: Seq<char>, def: ColumnDefinition)
    requires
        names_rising(columns),
    ensures
        names_rising(with_column(columns, name, def)),
{
    lemma_place_finds(columns, name);
    let p = place_of(columns, name);
    let after = with_column(columns, name, def);
    if has_column(columns, name) {
        assert forall|i: int, j: int| 0 <= i < j < after.len() implies text_less(
            (#[trigger] after[i]).0,
            (#[trigger] after[j]).0,
        ) by {
            assert(after[i].0 == columns[i].0);
            assert(after[j].0 == columns[j].0);
        }
    } else {
        assert forall|i: int, j: int| 0 <= i < j < after.len() implies text_less(
            (#[trigger] after[i]).0,
            (#[trigger] after[j]).0,
        ) by {
            if j < p {
                assert(after[i] == columns[i] && after[j] == columns[j]);
            } else if j == p {
                assert(after[i] == columns[i]);
            } else if i == p {
                assert(after[j] == columns[j - 1]);
                lemma_less_total(columns[j - 1].0, name);
            } else if i < p {
                assert(after[i] == columns[i] && after[j] == columns[j - 1]);
            } else {
                assert(after[i] == columns[i - 1] && after[j] == columns[j - 1]);
            }
        }
    }
}

/// Among columns in the order of their names, a name is the name of a
/// column exactly if it stands at some place, and then the column holds
/// what stands there.
pub proof fn lemma_column_of(columns: Seq<Column>, name: Seq<char>)
    requires
        names_rising(columns),
    ensures
        forall|i: int|
            0 <= i < columns.len() && (#[trigger] columns[i]).0 == name ==> column_of(columns, name)
                == Some(columns[i].1),
        (forall|i: int| 0 <= i < columns.len() ==> (#[trigger] columns[i]).0 != name) ==> column_of(
            columns,
            name,
        ) is None,
        column_of(columns, name) is Some ==> 0 <= place_of(columns, name) < columns.len()
            && columns[place_of(columns, name)] == (name, column_of(columns, name)->0),
{
    lemma_place_finds(columns, name);
}

/// What a column holds once a column has been added: the added column
/// holds what was given, and every other column what it held before.
pub proof fn lemma_with_column_holds(
    columns: Seq<Column>,
    added: Seq<char>,
    def: ColumnDefinition,
    name: Seq<char>,
)
    requires
        names_rising(columns),
    ensures
        column_of(with_column(columns, added, def), name) == if name == added {
            Some(def)
        } else {
            column_of(columns, name)
        },
{
    let after = with_column(columns, added, def);
    let p = place_of(columns, added);
    lemma_with_column_rising(columns, added, def);
    lemma_place_finds(columns, added);
    lemma_column_of(columns, name);
    lemma_column_of(after, name);
    let replaced = has_column(columns, added);
    assert(after[p] == (added, def));
    if name != added {
        match column_of(columns, name) {
            Some(held) => {
                let i = place_of(columns, name);
                assert(columns[i] == (name, held));
                if replaced || i < p {
                    assert(after[i] == columns[i]);
                } else {
                    assert(after[i + 1] == columns[i]);
                }
            },
            None => {
                assert forall|k: int| 0 <= k < after.len() implies (#[trigger] after[k]).0 != name by {
                    if after[k].0 == name {
                        if replaced {
                            assert(after[k].0 == columns[k].0);
                            assert(column_of(columns, name) == Some(columns[k].1));
                        } else if k < p {
                            assert(after[k] == columns[k]);
                            assert(column_of(columns, name) == Some(columns[k].1));
                        } else if k > p {
                            assert(after[k] == columns[k - 1]);
                            assert(column_of(columns, name) == Some(columns[k - 1].1));
                        }
                    }
                }
            },
        }
    }
}

/// Columns in the order of their names are told by what each name holds:
/// two lists that hold the same under every name are one list.
pub proof fn lemma_columns_unique(x: Seq<Column>, y: Seq<Column>)
    requires
        names_rising(x),
        names_rising(y),
        forall|name: Seq<char>| #[trigger] column_of(x, name) == column_of(y, name),
    ensures
        x == y,
    decreases x.len(),
{
    if x.len() == 0 {
        if y.len() > 0 {
            lemma_column_of(y, y[0].0);
            lemma_column_of(x, y[0].0);
            assert(column_of(x, y[0].0) == column_of(y, y[0].0));
        }
        assert(x =~= y);
    } else {
        let last = x.last();
        lemma_column_of(x, last.0);
        lemma_column_of(y, last.0);
        assert(x[x.len() - 1] == last);
        assert(column_of(x, last.0) == column_of(y, last.0));
        let j = place_of(y, last.0);
        assert(y[j] == last);
        let other = y.last();
        lemma_column_of(x, other.0);
        lemma_column_of(y, other.0);
        assert(y[y.len() - 1] == other);
        assert(column_of(x, other.0) == column_of(y, other.0));
        let i = place_of(x, other.0);
        assert(x[i] == other);
        if j < y.len() - 1 {
            assert(text_less(y[j].0, y[y.len() - 1].0));
            if i < x.len() - 1 {
                assert(text_less(x[i].0, x[x.len() - 1].0));
                lemma_less_asymmetric(last.0, other.0);
            } else {
                lemma_less_irreflexive(last.0);
            }
        }
        let front = x.drop_last();
        let other_front = y.drop_last();
        assert forall|a: int, b: int| 0 <= a < b < front.len() implies text_less(
            (#[trigger] front[a]).0,
            (#[trigger] front[b]).0,
        ) by {
            assert(front[a] == x[a] && front[b] == x[b]);
        }
        assert forall|a: int, b: int| 0 <= a < b < other_front.len() implies text_less(
            (#[trigger] other_front[a]).0,
            (#[trigger] other_front[b]).0,
        ) by {
            assert(other_front[a] == y[a] && other_front[b] == y[b]);
        }
        assert forall|name: Seq<char>| #[trigger]
            column_of(front, name) == column_of(other_front, name) by {
            lemma_column_of_front(x, name);
            lemma_column_of_front(y, name);
            assert(column_of(x, name) == column_of(y, name));
        }
        lemma_columns_unique(front, other_front);
        assert(x =~= front.push(last));
        assert(y =~= other_front.push(other));
    }
}

/// What the columns but the last hold: nothing under the name of the
/// last, and under every other name what all the columns hold.
pub proof fn lemma_column_of_front(columns: Seq<Column>, name: Seq<char>)
    requires
        names_rising(columns),
        columns.len() > 0,
    ensures
        column_of(columns.drop_last(), name) == if name == columns.last().0 {
            None
        } else {
            column_of(columns, name)
        },
{
    let front = columns.drop_last();
    let n = front.len() as int;
    assert forall|a: int, b: int| 0 <= a < b < front.len() implies text_less(
        (#[trigger] front[a]).0,
        (#[trigger] front[b]).0,
    ) by {
        assert(front[a] == columns[a] && front[b] == columns[b]);
    }
    lemma_column_of(columns, name);
    lemma_column_of(front, name);
    if name == columns.last().0 {
        assert forall|k: int| 0 <= k < front.len() implies (#[trigger] front[k]).0 != name by {
            assert(front[k] == columns[k]);
            assert(text_less(columns[k].0, columns[n].0));
            lemma_less_irreflexive(name);
        }
    } else {
        match column_of(columns, name) {
            Some(held) => {
                let i = place_of(columns, name);
                assert(columns[i] == (name, held));
                assert(front[i] == columns[i]);
            },
            None => {
                assert forall|k: int| 0 <= k < front.len() implies (#[trigger] front[k]).0 != name by {
                    if front[k].0 == name {
                        assert(front[k] == columns[k]);
                        assert(column_of(columns, name) == Some(columns[k].1));
                    }
                }
            },
        }
    }
}

/// The columns of a schema do not depend on the order in which they were
/// added: two columns of different names can be added either way round.
pub proof fn lemma_with_column_commutes(
    columns: Seq<Column>,
    a: Seq<char>,
    def_a: ColumnDefinition,
    b: Seq<char>,
    def_b: ColumnDefinition,
)
    requires
        names_rising(columns),
        a != b,
    ensures
        with_column(with_column(columns, a, def_a), b, def_b) == with_column(
            with_column(columns, b, def_b),
            a,
            def_a,
        ),
{
    let first_a = with_column(columns, a, def_a);
    let first_b = with_column(columns, b, def_b);
    lemma_with_column_rising(columns, a, def_a);
    lemma_with_column_rising(columns, b, def_b);
    lemma_with_column_rising(first_a, b, def_b);
    lemma_with_column_rising(first_b, a, def_a);
    let x = with_column(first_a, b, def_b);
    let y = with_column(first_b, a, def_a);
    assert forall|name: Seq<char>| #[trigger] column_of(x, name) == column_of(y, name) by {
        lemma_with_column_holds(columns, a, def_a, name);
        lemma_with_column_holds(first_a, b, def_b, name);
        lemma_with_column_holds(columns, b, def_b, name);
        lemma_with_column_holds(first_b, a, def_a, name);
    }
    lemma_columns_unique(x, y);
}

/// The place among `columns` where the column `name` stands or belongs.
fn find_place(columns: &Vec<(String, ColumnDefinition)>, name: &str) -> (p: usize)
    ensures
        p == place_of(schema_columns(columns@), name@),
        p <= columns.len(),
{
    let ghost views = schema_columns(columns@);
    let ghost keep = |c: Column| text_less(c.0, name@);
    let wanted = to_chars(name);
    let mut i: usize = 0;
    while i < columns.len()
        invariant
            i <= columns.len(),
            views == schema_columns(columns@),
            wanted@ == name@,
            keep == |c: Column| text_less(c.0, name@),
            forall|j: int| 0 <= j < i ==> keep(#[trigger] views[j]),
        decreases columns.len() - i,
    {
        let current = to_chars(columns[i].0.as_str());
        if !chars_less(&current, &wanted) {
            assert(!keep(views[i as int]));
            proof {
                lemma_leading(views, keep, i as int);
            }
            return i;
        }
        assert(keep(views[i as int]));
        i += 1;
    }
    proof {
        lemma_leading(views, keep, i as int);
    }
    i
}

/// What the column `name` holds.
pub(crate) fn find_column(columns: &Vec<(String, ColumnDefinition)>, name: &str) -> (def: Option<
    ColumnDefinition,
>)
    ensures
        def == column_of(schema_columns(columns@), name@),
{
    let p = find_place(columns, name);
    if p < columns.len() && same_text(columns[p].0.as_str(), name) {
        Some(columns[p].1)
    } else {
        None
    }
}

/// Puts the column `name` among `columns`.
pub(crate) fn put_column(columns: &mut Vec<(String, ColumnDefinition)>, name: &str, def: ColumnDefinition)
    ensures
        schema_columns(final(columns)@) == with_column(schema_columns(old(columns)@), name@, def),
{
    let ghost before = schema_columns(columns@);
    let p = find_place(columns, name);
    if p < columns.len() && same_text(columns[p].0.as_str(), name) {
        columns.remove(p);
    }
    columns.insert(p, (String::from_str(name), def));
    assert(schema_columns(columns@) =~= with_column(before, name@, def));
}

// ---------------------------------------------------------------------------
// The schema

/// The schema of a family of tables that hold one dataset at several
/// resolutions, compacted or not.
pub struct CompactedTableSchema {
    pub(crate) name: String,
    pub(crate) table_engine: TableEngine,
    pub(crate) compression_method: CompressionMethod,
    pub(crate) h3_base_resolutions: Vec<u8>,
    pub(crate) use_compaction: bool,
    pub(crate) temporal_resolution: TemporalResolution,
    pub(crate) temporal_partitioning: TemporalPartitioning,
    /// In the order of their names.
    pub(crate) columns: Vec<(String, ColumnDefinition)>,
    pub(crate) partition_by_columns: Vec<String>,
    pub(crate) has_base_suffix: bool,
}

/// Mathematical value of a [`CompactedTableSchema`].
pub struct CompactedTableSchemaView {
    pub name: Seq<char>,
    pub table_engine: TableEngineView,
    pub compression_method: CompressionMethod,
    pub h3_base_resolutions: Seq<u8>,
    pub use_compaction: bool,
    pub temporal_resolution: TemporalResolution,
    pub temporal_partitioning: TemporalPartitioning,
    pub columns: Seq<Column>,
    pub partition_by_columns: Seq<Seq<char>>,
    pub has_base_suffix: bool,
}

impl CompactedTableSchema {
    #[verifier::type_invariant]
    pub closed spec fn columns_in_order(&self) -> bool {
        names_rising(schema_columns(self.columns@))
    }
}

impl View for CompactedTableSchema {
    type V = CompactedTableSchemaView;

    closed spec fn view(&self) -> CompactedTableSchemaView {
        CompactedTableSchemaView {
            name: self.name@,
            table_engine: self.table_engine@,
            compression_method: self.compression_method,
            h3_base_resolutions: self.h3_base_resolutions@,
            use_compaction: self.use_compaction,
            temporal_resolution: self.temporal_resolution,
            temporal_partitioning: self.temporal_partitioning,
            columns: schema_columns(self.columns@),
            partition_by_columns: texts(self.partition_by_columns@),
            has_base_suffix: self.has_base_suffix,
        }
    }
}

// ---------------------------------------------------------------------------
// The sorting key

/// A column of the sorting key: its position, and its name.
pub type SortKey = (int, Seq<char>);

/// Whether a column is part of the sorting key: it declares a position
/// there, or it is the column of the cell index.
pub open spec fn in_sorting_key(c: Column) -> bool {
    column_key_position(c.1) is Some || c.0 == "h3index"@
}

/// The position by which a column is sorted into the key: the one it
/// declares, or 10; for the column of the cell index 100 less.
pub open spec fn sort_position(c: Column) -> int {
    (match column_key_position(c.1) {
        Some(p) => p as int,
        None => 10,
    }) - (if c.0 == "h3index"@ {
        100int
    } else {
        0int
    })
}

/// The order of the sorting key: by position, then by name.
pub open spec fn key_less(a: SortKey, b: SortKey) -> bool {
    a.0 < b.0 || (a.0 == b.0 && text_less(a.1, b.1))
}

/// The keys `sorted` with `e` put in front of the first key that comes after it.
pub open spec fn key_insert(sorted: Seq<SortKey>, e: SortKey) -> Seq<SortKey> {
    sorted.insert(leading(sorted, |x: SortKey| !key_less(e, x)), e)
}

/// The columns of the sorting key, by position and name.
pub open spec fn sorting_keys(columns: Seq<Column>) -> Seq<SortKey>
    decreases columns.len(),
{
    if columns.len() == 0 {
        Seq::empty()
    } else {
        let before = sorting_keys(columns.drop_last());
        let c = columns.last();
        if in_sorting_key(c) {
            key_insert(before, (sort_position(c), c.0))
        } else {
            before
        }
    }
}

/// The names of the columns to order a table by.
pub open spec fn order_by_names(columns: Seq<Column>) -> Seq<Seq<char>> {
    sorting_keys(columns).map_values(|k: SortKey| k.1)
}

/// Whether the keys rise.
pub open spec fn keys_rising(keys: Seq<SortKey>) -> bool {
    forall|i: int, j: int| 0 <= i < j < keys.len() ==> key_less(#[trigger] keys[i], #[trigger] keys[j])
}

/// Putting a key among rising keys that do not hold it leaves them
/// rising, and adds that key only.
pub proof fn lemma_key_insert(sorted: Seq<SortKey>, e: SortKey)
    requires
        keys_rising(sorted),
        !sorted.contains(e),
    ensures
        keys_rising(key_insert(sorted, e)),
        forall|k: SortKey| key_insert(sorted, e).contains(k) <==> (k == e || sorted.contains(k)),
{
    let keep = |x: SortKey| !key_less(e, x);
    let p = leading(sorted, keep);
    let after = key_insert(sorted, e);
    lemma_leading_is_run(sorted, keep);
    assert forall|i: int, j: int| 0 <= i < j < after.len() implies key_less(
        #[trigger] after[i],
        #[trigger] after[j],
    ) by {
        if j < p {
            assert(after[i] == sorted[i] && after[j] == sorted[j]);
        } else if j == p {
            assert(after[i] == sorted[i]);
            assert(keep(sorted[i]));
            assert(sorted.contains(sorted[i]));
            lemma_less_total(sorted[i].1, e.1);
        } else if i == p {
            assert(after[j] == sorted[j - 1]);
            if j - 1 > p {
                assert(key_less(sorted[p], sorted[j - 1]));
                lemma_key_less_transitive(e, sorted[p], sorted[j - 1]);
            }
        } else if i < p {
            assert(after[i] == sorted[i] && after[j] == sorted[j - 1]);
        } else {
            assert(after[i] == sorted[i - 1] && after[j] == sorted[j - 1]);
        }
    }
    assert forall|k: SortKey| after.contains(k) <==> (k == e || sorted.contains(k)) by {
        if after.contains(k) {
            let i = choose|i: int| 0 <= i < after.len() && after[i] == k;
            if i < p {
                assert(sorted[i] == k);
            } else if i > p {
                assert(sorted[i - 1] == k);
            }
        }
        if k == e {
            assert(after[p] == e);
        } else if sorted.contains(k) {
            let i = choose|i: int| 0 <= i < sorted.len() && sorted[i] == k;
            if i < p {
                assert(after[i] == k);
            } else {
                assert(after[i + 1] == k);
            }
        }
    }
}

/// The order of the sorting key is transitive.
pub proof fn lemma_key_less_transitive(a: SortKey, b: SortKey, c: SortKey)
    requires
        key_less(a, b),
        key_less(b, c),
    ensures
        key_less(a, c),
{
    if a.0 == b.0 && b.0 == c.0 {
        lemma_less_transitive(a.1, b.1, c.1);
    }
}

/// The sorting key holds the columns that belong to it, each once, and
/// in rising order.
pub proof fn lemma_sorting_keys(columns: Seq<Column>)
    requires
        names_rising(columns),
    ensures
        keys_rising(sorting_keys(columns)),
        forall|k: SortKey|
            sorting_keys(columns).contains(k) <==> exists|i: int|
                0 <= i < columns.len() && in_sorting_key(#[trigger] columns[i]) && k == (
                    sort_position(columns[i]),
                    columns[i].0,
                ),
    decreases columns.len(),
{
    if columns.len() > 0 {
        let front = columns.drop_last();
        let c = columns.last();
        assert forall|i: int, j: int| 0 <= i < j < front.len() implies text_less(
            (#[trigger] front[i]).0,
            (#[trigger] front[j]).0,
        ) by {
            assert(front[i] == columns[i] && front[j] == columns[j]);
        }
        lemma_sorting_keys(front);
        let before = sorting_keys(front);
        let e = (sort_position(c), c.0);
        if in_sorting_key(c) {
            if before.contains(e) {
                let i = choose|i: int|
                    0 <= i < front.len() && in_sorting_key(#[trigger] front[i]) && e == (
                        sort_position(front[i]),
                        front[i].0,
                    );
                assert(front[i] == columns[i]);
                assert(text_less(columns[i].0, columns[columns.len() - 1].0));
                lemma_less_irreflexive(c.0);
            }
            lemma_key_insert(before, e);
        }
        let keys = sorting_keys(columns);
        assert forall|k: SortKey|
            keys.contains(k) <==> exists|i: int|
                0 <= i < columns.len() && in_sorting_key(#[trigger] columns[i]) && k == (
                    sort_position(columns[i]),
                    columns[i].0,
                ) by {
            if keys.contains(k) {
                if in_sorting_key(c) && k == e {
                    assert(columns[columns.len() - 1] == c);
                } else {
                    assert(before.contains(k));
                    let i = choose|i: int|
                        0 <= i < front.len() && in_sorting_key(#[trigger] front[i]) && k == (
                            sort_position(front[i]),
                            front[i].0,
                        );
                    assert(front[i] == columns[i]);
                }
            }
            if exists|i: int|
                0 <= i < columns.len() && in_sorting_key(#[trigger] columns[i]) && k == (
                    sort_position(columns[i]),
                    columns[i].0,
                ) {
                let i = choose|i: int|
                    0 <= i < columns.len() && in_sorting_key(#[trigger] columns[i]) && k == (
                        sort_position(columns[i]),
                        columns[i].0,
                    );
                if i < front.len() {
                    assert(front[i] == columns[i]);
                    assert(before.contains(k));
                }
            }
        }
    }
}

/// The sorting key begins with the column of the cell index, whatever
/// positions the other columns declare.
pub proof fn lemma_order_by_begins_with_h3index(columns: Seq<Column>)
    requires
        names_rising(columns),
        column_of(columns, "h3index"@) == Some(ColumnDefinition::H3Index),
    ensures
        order_by_names(columns).len() > 0,
        order_by_names(columns)[0] == "h3index"@,
{
    lemma_sorting_keys(columns);
    lemma_place_finds(columns, "h3index"@);
    let keys = sorting_keys(columns);
    let p = place_of(columns, "h3index"@);
    let h3 = (sort_position(columns[p]), columns[p].0);
    assert(in_sorting_key(columns[p]));
    assert(keys.contains(h3));
    let at = choose|i: int| 0 <= i < keys.len() && keys[i] == h3;
    if at > 0 {
        assert(key_less(keys[0], keys[at]));
        assert(keys.contains(keys[0]));
        let i = choose|i: int|
            0 <= i < columns.len() && in_sorting_key(#[trigger] columns[i]) && keys[0] == (
                sort_position(columns[i]),
                columns[i].0,
            );
        lemma_less_irreflexive("h3index"@);
    }
}


/// The keys of a list, each by its value.
pub open spec fn key_views(keys: Seq<(i16, String)>) -> Seq<SortKey> {
    keys.map_values(|k: (i16, String)| (k.0 as int, k.1@))
}

/// Puts the key of position `position` and name `name` among `keys`.
fn put_key(keys: &mut Vec<(i16, String)>, position: i16, name: &String)
    ensures
        key_views(final(keys)@) == key_insert(key_views(old(keys)@), (position as int, name@)),
{
    let ghost before = key_views(keys@);
    let ghost e = (position as int, name@);
    let ghost keep = |x: SortKey| !key_less(e, x);
    let mut p: usize = 0;
    while p < keys.len()
        invariant
            p <= keys.len(),
            before == key_views(keys@),
            e == (position as int, name@),
            keep == |x: SortKey| !key_less(e, x),
            forall|j: int| 0 <= j < p ==> keep(#[trigger] before[j]),
        ensures
            p <= keys.len(),
            forall|j: int| 0 <= j < p ==> keep(#[trigger] before[j]),
            p < keys.len() ==> !keep(before[p as int]),
        decreases keys.len() - p,
    {
        let other = &keys[p];
        let comes_first = position < other.0 || (position == other.0 && crate::order::less(
            name.as_str(),
            other.1.as_str(),
        ));
        assert(comes_first == key_less(e, before[p as int]));
        if comes_first {
            break;
        }
        p += 1;
    }
    proof {
        lemma_leading(before, keep, p as int);
    }
    keys.insert(p, (position, name.clone()));
    assert(key_views(keys@) =~= key_insert(before, e));
}

/// How a temporal column is written in `PARTITION BY`.
pub open spec fn temporal_expression(name: Seq<char>, partitioning: TemporalPartitioning) -> Seq<char> {
    match partitioning {
        TemporalPartitioning::Year => "toString(toYear("@ + name + "))"@,
        TemporalPartitioning::Month => "toString(toMonth("@ + name + "))"@,
    }
}

/// How one column is written in `PARTITION BY`: the base cell of a cell
/// index, the year or month of a temporal column, any other column as it is.
pub open spec fn partition_expression(
    name: Seq<char>,
    def: ColumnDefinition,
    partitioning: TemporalPartitioning,
) -> Seq<char> {
    match def {
        ColumnDefinition::H3Index => "h3GetBaseCell("@ + name + ")"@,
        _ => if is_temporal_type(column_datatype(def)) {
            temporal_expression(name, partitioning)
        } else {
            name
        },
    }
}

/// How one column is written in `PARTITION BY`.
pub fn partition_by_expression(
    column_name: &str,
    def: &ColumnDefinition,
    temporal_partitioning: &TemporalPartitioning,
) -> (text: String)
    ensures
        text@ == partition_expression(column_name@, *def, *temporal_partitioning),
{
    let mut text = String::new();
    match def {
        ColumnDefinition::H3Index => {
            text.append("h3GetBaseCell(");
            text.append(column_name);
            text.append(")");
        },
        _ => {
            if def.datatype().is_temporal() {
                match temporal_partitioning {
                    TemporalPartitioning::Year => text.append("toString(toYear("),
                    TemporalPartitioning::Month => text.append("toString(toMonth("),
                }
                text.append(column_name);
                text.append("))");
            } else {
                text.append(column_name);
            }
        },
    }
    assert(text@ =~= partition_expression(column_name@, *def, *temporal_partitioning));
    text
}

/// The list with `e` at its end, unless the list holds `e`.
pub open spec fn push_new(list: Seq<Seq<char>>, e: Seq<char>) -> Seq<Seq<char>> {
    if list.contains(e) {
        list
    } else {
        list.push(e)
    }
}

/// `first`, followed by the expressions of the temporal columns, each once.
pub open spec fn temporal_expressions(
    first: Seq<Seq<char>>,
    columns: Seq<Column>,
    partitioning: TemporalPartitioning,
) -> Seq<Seq<char>>
    decreases columns.len(),
{
    if columns.len() == 0 {
        first
    } else {
        let before = temporal_expressions(first, columns.drop_last(), partitioning);
        let c = columns.last();
        if is_temporal_type(column_datatype(c.1)) {
            push_new(before, partition_expression(c.0, c.1, partitioning))
        } else {
            before
        }
    }
}

/// The fault of a schema that lacks the column `name`.
pub open spec fn missing_column(name: Seq<char>) -> ErrorView {
    ErrorView::SchemaValidationError("CompactedTableSchema"@, "column "@ + name + " is missing"@)
}

/// `first`, followed by the expressions of the columns `names`, each
/// once; or the fault of the first name that is no column.
pub open spec fn named_expressions(
    first: Seq<Seq<char>>,
    columns: Seq<Column>,
    names: Seq<Seq<char>>,
    partitioning: TemporalPartitioning,
) -> Result<Seq<Seq<char>>, ErrorView>
    decreases names.len(),
{
    if names.len() == 0 {
        Ok(first)
    } else {
        match named_expressions(first, columns, names.drop_last(), partitioning) {
            Err(e) => Err(e),
            Ok(list) => match column_of(columns, names.last()) {
                None => Err(missing_column(names.last())),
                Some(def) => Ok(push_new(list, partition_expression(names.last(), def, partitioning))),
            },
        }
    }
}

/// The column of the cell index, or the fault of a schema that has none
/// or has another kind of column under that name.
pub open spec fn h3index_column_of(columns: Seq<Column>) -> Result<Column, ErrorView> {
    match column_of(columns, "h3index"@) {
        None => Err(missing_column("h3index"@)),
        Some(def) => if def == ColumnDefinition::H3Index {
            Ok(("h3index"@, def))
        } else {
            Err(
                ErrorView::SchemaValidationError(
                    "CompactedTableSchema"@,
                    "column h3index must be a h3index column"@,
                ),
            )
        },
    }
}

/// The expressions to partition the tables by: the base cell of the cell
/// index first; then the columns named for it, or, where none is named,
/// the one temporal column, if there is one. More than one temporal
/// column is a fault where none is named.
pub open spec fn partition_by(v: CompactedTableSchemaView) -> Result<Seq<Seq<char>>, ErrorView> {
    match h3index_column_of(v.columns) {
        Err(e) => Err(e),
        Ok(h3) => {
            let first = seq![partition_expression(h3.0, h3.1, v.temporal_partitioning)];
            if v.partition_by_columns.len() == 0 {
                let all = temporal_expressions(first, v.columns, v.temporal_partitioning);
                if all.len() > 2 {
                    Err(
                        ErrorView::SchemaValidationError(
                            "CompactedTableSchema"@,
                            "found multiple temporal columns - explicit specification of partitioning columns required"@,
                        ),
                    )
                } else {
                    Ok(all)
                }
            } else {
                named_expressions(first, v.columns, v.partition_by_columns, v.temporal_partitioning)
            }
        },
    }
}

/// View of a list of texts, or of the error in its place.
pub open spec fn texts_or_error(r: Result<Vec<String>, Error>) -> Result<Seq<Seq<char>>, ErrorView> {
    match r {
        Ok(list) => Ok(texts(list@)),
        Err(e) => Err(e@),
    }
}

/// Appends `e` to `list` unless the list holds its text.
fn push_if_new(list: &mut Vec<String>, e: String)
    ensures
        texts(final(list)@) == push_new(texts(old(list)@), e@),
{
    let ghost before = list@;
    if !crate::text::list_contains(list, e.as_str()) {
        list.push(e);
        assert(texts(list@) =~= texts(before).push(e@));
    }
}

/// The error of a schema that lacks the column `name`.
fn missing_column_error(name: &str) -> (e: Error)
    ensures
        e@ == missing_column(name@),
{
    let mut message = String::new();
    message.append("column ");
    message.append(name);
    message.append(" is missing");
    Error::SchemaValidationError(String::from_str("CompactedTableSchema"), message)
}

impl CompactedTableSchema {
    /// The names of the columns to order the tables by: the column of
    /// the cell index and every column that declares a position in the
    /// sorting key, by position and then by name.
    pub fn order_by_column_names(&self) -> (names: Vec<String>)
        ensures
            texts(names@) == order_by_names(self@.columns),
            column_of(self@.columns, "h3index"@) == Some(ColumnDefinition::H3Index) ==> names@.len()
                > 0 && names@[0]@ == "h3index"@,
    {
        proof {
            use_type_invariant(self);
            if column_of(self@.columns, "h3index"@) == Some(ColumnDefinition::H3Index) {
                lemma_order_by_begins_with_h3index(self@.columns);
            }
        }
        let ghost views = schema_columns(self.columns@);
        let mut keys: Vec<(i16, String)> = Vec::new();
        let mut i: usize = 0;
        assert(key_views(keys@) =~= sorting_keys(views.take(0)));
        while i < self.columns.len()
            invariant
                i <= self.columns.len(),
                views == schema_columns(self.columns@),
                key_views(keys@) == sorting_keys(views.take(i as int)),
            decreases self.columns.len() - i,
        {
            assert(views.take(i + 1).drop_last() =~= views.take(i as int));
            assert(views.take(i + 1).last() == views[i as int]);
            let name = &self.columns[i].0;
            let def = &self.columns[i].1;
            let is_h3index = same_text(name.as_str(), crate::COL_NAME_H3INDEX);
            let declared = def.order_key_position();
            if declared.is_some() || is_h3index {
                let key_position: i16 = match declared {
                    Some(p) => p as i16,
                    None => 10,
                };
                let position: i16 = if is_h3index {
                    key_position - 100
                } else {
                    key_position
                };
                put_key(&mut keys, position, name);
            }
            i += 1;
        }
        assert(views.take(self.columns@.len() as int) =~= views);
        let mut names: Vec<String> = Vec::new();
        let mut k: usize = 0;
        while k < keys.len()
            invariant
                k <= keys.len(),
                texts(names@) == key_views(keys@).take(k as int).map_values(|e: SortKey| e.1),
            decreases keys.len() - k,
        {
            let ghost before = names@;
            names.push(keys[k].1.clone());
            assert(texts(names@) =~= texts(before).push(keys@[k as int].1@));
            assert(key_views(keys@).take(k + 1).map_values(|e: SortKey| e.1) =~= key_views(
                keys@,
            ).take(k as int).map_values(|e: SortKey| e.1).push(keys@[k as int].1@));
            k += 1;
        }
        assert(key_views(keys@).take(keys@.len() as int) =~= key_views(keys@));
        names
    }

    /// What the column `column_name` holds.
    pub fn get_column_def(&self, column_name: &str) -> (r: Result<ColumnDefinition, Error>)
        ensures
            match column_of(self@.columns, column_name@) {
                Some(def) => r == Ok::<ColumnDefinition, Error>(def),
                None => r is Err && r->Err_0@ == missing_column(column_name@),
            },
    {
        match find_column(&self.columns, column_name) {
            Some(def) => Ok(def),
            None => Err(missing_column_error(column_name)),
        }
    }

    /// The column of the cell index.
    pub fn h3index_column(&self) -> (r: Result<(String, ColumnDefinition), Error>)
        ensures
            match h3index_column_of(self@.columns) {
                Ok(c) => r is Ok && r->Ok_0.0@ == c.0 && r->Ok_0.1 == c.1,
                Err(e) => r is Err && r->Err_0@ == e,
            },
    {
        match self.get_column_def(crate::COL_NAME_H3INDEX) {
            Err(e) => Err(e),
            Ok(def) => {
                if def == ColumnDefinition::H3Index {
                    Ok((String::from_str(crate::COL_NAME_H3INDEX), def))
                } else {
                    Err(
                        Error::SchemaValidationError(
                            String::from_str("CompactedTableSchema"),
                            String::from_str("column h3index must be a h3index column"),
                        ),
                    )
                }
            },
        }
    }

    /// The expressions to partition the tables by.
    pub fn partition_by_expressions(&self) -> (r: Result<Vec<String>, Error>)
        ensures
            texts_or_error(r) == partition_by(self@),
    {
        let (h3_name, h3_def) = match self.h3index_column() {
            Err(e) => {
                return Err(e);
            },
            Ok(c) => c,
        };
        let ghost views = schema_columns(self.columns@);
        let ghost first = seq![
            partition_expression("h3index"@, ColumnDefinition::H3Index, self.temporal_partitioning),
        ];
        let mut list: Vec<String> = Vec::new();
        list.push(partition_by_expression(h3_name.as_str(), &h3_def, &self.temporal_partitioning));
        assert(texts(list@) =~= first);
        if self.partition_by_columns.len() == 0 {
            let mut i: usize = 0;
            assert(views.take(0) =~= Seq::<Column>::empty());
            while i < self.columns.len()
                invariant
                    i <= self.columns.len(),
                    views == schema_columns(self.columns@),
                    texts(list@) == temporal_expressions(
                        first,
                        views.take(i as int),
                        self.temporal_partitioning,
                    ),
                decreases self.columns.len() - i,
            {
                assert(views.take(i + 1).drop_last() =~= views.take(i as int));
                assert(views.take(i + 1).last() == views[i as int]);
                let def = &self.columns[i].1;
                if def.datatype().is_temporal() {
                    let e = partition_by_expression(
                        self.columns[i].0.as_str(),
                        def,
                        &self.temporal_partitioning,
                    );
                    push_if_new(&mut list, e);
                }
                i += 1;
            }
            assert(views.take(self.columns@.len() as int) =~= views);
            if list.len() > 2 {
                return Err(
                    Error::SchemaValidationError(
                        String::from_str("CompactedTableSchema"),
                        String::from_str(
                            "found multiple temporal columns - explicit specification of partitioning columns required",
                        ),
                    ),
                );
            }
            Ok(list)
        } else {
            let ghost names = texts(self.partition_by_columns@);
            let mut i: usize = 0;
            assert(names.take(0) =~= Seq::<Seq<char>>::empty());
            while i < self.partition_by_columns.len()
                invariant
                    i <= self.partition_by_columns.len(),
                    views == schema_columns(self.columns@),
                    names == texts(self.partition_by_columns@),
                    views == self@.columns,
                    partition_by(self@) == named_expressions(
                        first,
                        views,
                        names,
                        self.temporal_partitioning,
                    ),
                    named_expressions(
                        first,
                        views,
                        names.take(i as int),
                        self.temporal_partitioning,
                    ) == Ok::<Seq<Seq<char>>, ErrorView>(texts(list@)),
                decreases self.partition_by_columns.len() - i,
            {
                assert(names.take(i + 1).drop_last() =~= names.take(i as int));
                assert(names.take(i + 1).last() == names[i as int]);
                let name = &self.partition_by_columns[i];
                match find_column(&self.columns, name.as_str()) {
                    None => {
                        let e = missing_column_error(name.as_str());
                        proof {
                            lemma_named_fault_stays(
                                first,
                                views,
                                names,
                                self.temporal_partitioning,
                                i + 1,
                            );
                        }
                        return Err(e);
                    },
                    Some(def) => {
                        let e = partition_by_expression(
                            name.as_str(),
                            &def,
                            &self.temporal_partitioning,
                        );
                        push_if_new(&mut list, e);
                    },
                }
                i += 1;
            }
            assert(names.take(self.partition_by_columns@.len() as int) =~= names);
            Ok(list)
        }
    }
}

/// A fault among the first `n` names is the fault of all the names.
pub proof fn lemma_named_fault_stays(
    first: Seq<Seq<char>>,
    columns: Seq<Column>,
    names: Seq<Seq<char>>,
    partitioning: TemporalPartitioning,
    n: int,
)
    requires
        0 <= n <= names.len(),
        named_expressions(first, columns, names.take(n), partitioning) is Err,
    ensures
        named_expressions(first, columns, names, partitioning) == named_expressions(
            first,
            columns,
            names.take(n),
            partitioning,
        ),
    decreases names.len() - n,
{
    if n < names.len() {
        assert(names.take(n + 1).drop_last() =~= names.take(n));
        lemma_named_fault_stays(first, columns, names, partitioning, n + 1);
    } else {
        assert(names.take(n) =~= names);
    }
}


// ---------------------------------------------------------------------------
// The statements

/// How the engine of a table is written.
pub open spec fn engine_text(e: TableEngineView) -> Seq<char> {
    match e {
        TableEngineView::ReplacingMergeTree => "ReplacingMergeTree"@,
        TableEngineView::SummingMergeTree(columns) => "SummingMergeTree("@ + joined(columns, ", "@)
            + ")"@,
        TableEngineView::AggregatingMergeTree => "AggregatingMergeTree"@,
    }
}

/// The line that declares one column.
pub open spec fn column_line(c: Column, codec: Seq<char>) -> Seq<char> {
    " "@ + c.0 + " "@ + sqltype_name(column_datatype(c.1)) + " CODEC("@ + codec + ")"@
}

/// The lines that declare the columns, in the order of the columns.
pub open spec fn column_lines(columns: Seq<Column>, codec: Seq<char>) -> Seq<Seq<char>> {
    Seq::new(columns.len(), |i: int| column_line(columns[i], codec))
}

/// The greatest of the resolutions `rs`, or 0 where there is none.
pub open spec fn max_resolution(rs: Seq<u8>) -> u8
    decreases rs.len(),
{
    if rs.len() == 0 {
        0
    } else if max_resolution(rs.drop_last()) >= rs.last() {
        max_resolution(rs.drop_last())
    } else {
        rs.last()
    }
}

/// The table of the schema at resolution `r`.
pub open spec fn schema_table(v: CompactedTableSchemaView, r: u8, is_compacted: bool) -> TableView {
    TableView {
        basename: v.name,
        spec: TableSpecView {
            h3_resolution: r,
            is_compacted,
            temporary_key: None,
            has_base_suffix: v.has_base_suffix,
        },
    }
}

/// The tables of the schema: one for each base resolution, and, where
/// compaction is used, a compacted one for each resolution from 0 to the
/// finest base resolution.
pub open spec fn schema_tables(v: CompactedTableSchemaView) -> Seq<TableView> {
    Seq::new(v.h3_base_resolutions.len(), |i: int| schema_table(v, v.h3_base_resolutions[i], false))
        + if v.use_compaction {
        Seq::new(
            (max_resolution(v.h3_base_resolutions) + 1) as nat,
            |r: int| schema_table(v, r as u8, true),
        )
    } else {
        Seq::empty()
    }
}

/// The statement that creates `table` for the schema `v`, partitioned by `partition`.
pub open spec fn statement_for(v: CompactedTableSchemaView, partition: Seq<Seq<char>>, table: TableView) -> Seq<
    char,
> {
    "\nCREATE TABLE IF NOT EXISTS "@ + table_name(table) + " (\n"@ + joined(
        column_lines(v.columns, codec_text(v.compression_method)),
        ",\n"@,
    ) + "\n)\nENGINE "@ + engine_text(v.table_engine) + "\nPARTITION BY ("@ + joined(partition, ", "@)
        + ")\nORDER BY ("@ + joined(order_by_names(v.columns), ", "@) + ");\n"@
}

/// The statements that create the tables of the schema, in the order of
/// [`schema_tables`]; or the fault that keeps the partitioning from being
/// written, or that of compaction without any base resolution.
pub open spec fn statements(v: CompactedTableSchemaView) -> Result<Seq<Seq<char>>, ErrorView> {
    match partition_by(v) {
        Err(e) => Err(e),
        Ok(partition) => if v.use_compaction && v.h3_base_resolutions.len() == 0 {
            Err(ErrorView::MixedResolutions)
        } else {
            Ok(
                Seq::new(
                    schema_tables(v).len(),
                    |i: int| statement_for(v, partition, schema_tables(v)[i]),
                ),
            )
        },
    }
}

/// The greatest of the resolutions, or 0 where there is none.
pub(crate) fn greatest_resolution(rs: &Vec<u8>) -> (m: u8)
    ensures
        m == max_resolution(rs@),
{
    let mut m: u8 = 0;
    let mut i: usize = 0;
    assert(rs@.take(0) =~= Seq::<u8>::empty());
    while i < rs.len()
        invariant
            i <= rs.len(),
            m == max_resolution(rs@.take(i as int)),
        decreases rs.len() - i,
    {
        assert(rs@.take(i + 1).drop_last() =~= rs@.take(i as int));
        if rs[i] > m {
            m = rs[i];
        }
        i += 1;
    }
    assert(rs@.take(rs@.len() as int) =~= rs@);
    m
}

/// What the statements of one schema share.
struct StatementParts {
    columns: String,
    engine: String,
    partition: String,
    order: String,
}

impl CompactedTableSchema {
    /// The statement that creates the table of resolution `r`.
    fn statement(&self, parts: &StatementParts, r: u8, is_compacted: bool, Ghost(partition): Ghost<
        Seq<Seq<char>>,
    >) -> (text: String)
        requires
            parts.columns@ == joined(
                column_lines(self@.columns, codec_text(self@.compression_method)),
                ",\n"@,
            ),
            parts.engine@ == engine_text(self@.table_engine),
            parts.partition@ == joined(partition, ", "@),
            parts.order@ == joined(order_by_names(self@.columns), ", "@),
        ensures
            text@ == statement_for(self@, partition, schema_table(self@, r, is_compacted)),
    {
        let table = Table {
            basename: self.name.clone(),
            spec: TableSpec {
                h3_resolution: r,
                is_compacted,
                temporary_key: None,
                has_base_suffix: self.has_base_suffix,
            },
        };
        assert(table@ == schema_table(self@, r, is_compacted));
        let name = table.to_table_name();
        let mut text = String::new();
        text.append("\nCREATE TABLE IF NOT EXISTS ");
        text.append(name.as_str());
        text.append(" (\n");
        text.append(parts.columns.as_str());
        text.append("\n)\nENGINE ");
        text.append(parts.engine.as_str());
        text.append("\nPARTITION BY (");
        text.append(parts.partition.as_str());
        text.append(")\nORDER BY (");
        text.append(parts.order.as_str());
        text.append(");\n");
        assert(text@ =~= statement_for(self@, partition, schema_table(self@, r, is_compacted)));
        text
    }

    /// How the engine is written.
    fn engine(&self) -> (text: String)
        ensures
            text@ == engine_text(self@.table_engine),
    {
        let mut text = String::new();
        match &self.table_engine {
            TableEngine::ReplacingMergeTree => text.append("ReplacingMergeTree"),
            TableEngine::SummingMergeTree(columns) => {
                let list = join(columns, ", ");
                text.append("SummingMergeTree(");
                text.append(list.as_str());
                text.append(")");
            },
            TableEngine::AggregatingMergeTree => text.append("AggregatingMergeTree"),
        }
        assert(text@ =~= engine_text(self@.table_engine));
        text
    }

    /// The lines that declare the columns, joined.
    fn columns_text(&self) -> (text: String)
        ensures
            text@ == joined(
                column_lines(self@.columns, codec_text(self@.compression_method)),
                ",\n"@,
            ),
    {
        let codec = self.compression_method.codec();
        let ghost views = schema_columns(self.columns@);
        let mut lines: Vec<String> = Vec::new();
        let mut i: usize = 0;
        while i < self.columns.len()
            invariant
                i <= self.columns.len(),
                views == schema_columns(self.columns@),
                codec@ == codec_text(self.compression_method),
                lines.len() == i,
                forall|j: int| 0 <= j < i ==> (#[trigger] lines@[j])@ == column_line(views[j], codec@),
            decreases self.columns.len() - i,
        {
            let mut line = String::new();
            line.append(" ");
            line.append(self.columns[i].0.as_str());
            line.append(" ");
            line.append(self.columns[i].1.datatype().sqltype().as_str());
            line.append(" CODEC(");
            line.append(codec.as_str());
            line.append(")");
            assert(line@ =~= column_line(views[i as int], codec@));
            lines.push(line);
            i += 1;
        }
        assert(texts(lines@) =~= column_lines(views, codec@));
        join(&lines, ",\n")
    }

    /// The statements that create the tables of the schema.
    pub fn create_statements(&self) -> (r: Result<Vec<String>, Error>)
        ensures
            texts_or_error(r) == statements(self@),
    {
        let expressions = match self.partition_by_expressions() {
            Err(e) => {
                return Err(e);
            },
            Ok(p) => p,
        };
        let ghost partition = texts(expressions@);
        let parts = StatementParts {
            columns: self.columns_text(),
            engine: self.engine(),
            partition: join(&expressions, ", "),
            order: join(&self.order_by_column_names(), ", "),
        };
        if self.use_compaction && self.h3_base_resolutions.len() == 0 {
            return Err(Error::MixedResolutions);
        }
        let ghost tables = schema_tables(self@);
        let mut out: Vec<String> = Vec::new();
        let mut i: usize = 0;
        while i < self.h3_base_resolutions.len()
            invariant
                i <= self.h3_base_resolutions.len(),
                tables == schema_tables(self@),
                self@.h3_base_resolutions == self.h3_base_resolutions@,
                parts.columns@ == joined(
                    column_lines(self@.columns, codec_text(self@.compression_method)),
                    ",\n"@,
                ),
                parts.engine@ == engine_text(self@.table_engine),
                parts.partition@ == joined(partition, ", "@),
                parts.order@ == joined(order_by_names(self@.columns), ", "@),
                out.len() == i,
                forall|j: int|
                    0 <= j < i ==> (#[trigger] out@[j])@ == statement_for(self@, partition, tables[j]),
            decreases self.h3_base_resolutions.len() - i,
        {
            let text = self.statement(&parts, self.h3_base_resolutions[i], false, Ghost(partition));
            assert(tables[i as int] == schema_table(self@, self.h3_base_resolutions@[i as int], false));
            out.push(text);
            i += 1;
        }
        if self.use_compaction {
            let finest = greatest_resolution(&self.h3_base_resolutions);
            let base = self.h3_base_resolutions.len();
            let mut r: u16 = 0;
            while r <= finest as u16
                invariant
                    r <= finest + 1,
                    self.use_compaction,
                    finest == max_resolution(self@.h3_base_resolutions),
                    base == self@.h3_base_resolutions.len(),
                    tables == schema_tables(self@),
                    parts.columns@ == joined(
                        column_lines(self@.columns, codec_text(self@.compression_method)),
                        ",\n"@,
                    ),
                    parts.engine@ == engine_text(self@.table_engine),
                    parts.partition@ == joined(partition, ", "@),
                    parts.order@ == joined(order_by_names(self@.columns), ", "@),
                    out.len() == base + r,
                    forall|j: int|
                        0 <= j < out.len() ==> (#[trigger] out@[j])@ == statement_for(
                            self@,
                            partition,
                            tables[j],
                        ),
                decreases finest + 1 - r,
            {
                let text = self.statement(&parts, r as u8, true, Ghost(partition));
                assert(tables[base + r] == schema_table(self@, r as u8, true));
                out.push(text);
                r += 1;
            }
        }
        assert(texts(out@) =~= Seq::new(
            tables.len(),
            |i: int| statement_for(self@, partition, tables[i]),
        ));
        Ok(out)
    }
}


// ---------------------------------------------------------------------------
// Validation

/// Whether each resolution is greater than the one before it.
pub open spec fn resolutions_rising(rs: Seq<u8>) -> bool {
    forall|i: int| 0 <= i < rs.len() - 1 ==> #[trigger] rs[i] < rs[i + 1]
}

/// What is wrong with the base resolutions of a schema: the first one
/// beyond 15; or that they do not rise; or that there is none.
pub open spec fn resolutions_fault(rs: Seq<u8>) -> Option<ErrorView> {
    let k = leading(rs, |r: u8| r <= 15);
    if k < rs.len() {
        Some(ErrorView::InvalidResolution(rs[k]))
    } else if !resolutions_rising(rs) {
        Some(
            ErrorView::SchemaValidationError(
                "CompactedTableSchema"@,
                "h3 base resolutions must rise without repetition"@,
            ),
        )
    } else if rs.len() == 0 {
        Some(
            ErrorView::SchemaValidationError(
                "CompactedTableSchema"@,
                "at least one h3 base resolution is required"@,
            ),
        )
    } else {
        None
    }
}

/// Those of the names `wanted` that are no columns, in their order.
pub open spec fn missing_of(columns: Seq<Column>, wanted: Seq<Seq<char>>) -> Seq<Seq<char>>
    decreases wanted.len(),
{
    if wanted.len() == 0 {
        Seq::empty()
    } else if has_column(columns, wanted.last()) {
        missing_of(columns, wanted.drop_last())
    } else {
        missing_of(columns, wanted.drop_last()).push(wanted.last())
    }
}

/// What is wrong with the engine of a schema: a column to sum that the
/// schema does not have.
pub open spec fn engine_fault(v: CompactedTableSchemaView) -> Option<ErrorView> {
    match v.table_engine {
        TableEngineView::SummingMergeTree(wanted) => if missing_of(v.columns, wanted).len() > 0 {
            Some(
                ErrorView::SchemaValidationError(
                    "TableEngine"@,
                    "SummingMergeTree engine is missing columns: "@ + joined(
                        missing_of(v.columns, wanted),
                        ", "@,
                    ),
                ),
            )
        } else {
            None
        },
        _ => None,
    }
}

/// The first thing that is wrong with a schema, in this order: its name,
/// the compression level, the column of the cell index, the columns of
/// the engine, the base resolutions, the partitioning.
pub open spec fn fault(v: CompactedTableSchemaView) -> Option<ErrorView> {
    if !is_table_name(v.name) {
        Some(ErrorView::SchemaValidationError("CompactedTableSchema"@, "invalid table name"@))
    } else if !is_compression(v.compression_method) {
        Some(
            ErrorView::SchemaValidationError(
                "CompressionMethod"@,
                "compression level out of range"@,
            ),
        )
    } else if h3index_column_of(v.columns) is Err {
        Some(h3index_column_of(v.columns)->Err_0)
    } else if engine_fault(v) is Some {
        engine_fault(v)
    } else if resolutions_fault(v.h3_base_resolutions) is Some {
        resolutions_fault(v.h3_base_resolutions)
    } else if partition_by(v) is Err {
        Some(partition_by(v)->Err_0)
    } else {
        None
    }
}

/// Checks the base resolutions of a schema.
pub fn validate_resolutions(rs: &Vec<u8>) -> (r: Result<(), Error>)
    ensures
        match resolutions_fault(rs@) {
            Some(e) => r is Err && r->Err_0@ == e,
            None => r is Ok,
        },
{
    let ghost keep = |r: u8| r <= 15;
    let mut i: usize = 0;
    while i < rs.len()
        invariant
            i <= rs.len(),
            keep == |r: u8| r <= 15,
            forall|j: int| 0 <= j < i ==> keep(#[trigger] rs@[j]),
        decreases rs.len() - i,
    {
        if rs[i] > crate::H3_MAX_RESOLUTION {
            proof {
                lemma_leading(rs@, keep, i as int);
            }
            return Err(Error::InvalidResolution(rs[i]));
        }
        i += 1;
    }
    proof {
        lemma_leading(rs@, keep, rs@.len() as int);
    }
    let mut k: usize = 1;
    while k < rs.len()
        invariant
            1 <= k,
            leading(rs@, |r: u8| r <= 15) == rs@.len(),
            forall|j: int| 0 <= j < k - 1 && j < rs@.len() - 1 ==> #[trigger] rs@[j] < rs@[j + 1],
        decreases rs.len() - k,
    {
        if rs[k - 1] >= rs[k] {
            assert(!(rs@[k - 1] < rs@[k - 1 + 1]));
            return Err(
                Error::SchemaValidationError(
                    String::from_str("CompactedTableSchema"),
                    String::from_str("h3 base resolutions must rise without repetition"),
                ),
            );
        }
        k += 1;
    }
    if rs.len() == 0 {
        return Err(
            Error::SchemaValidationError(
                String::from_str("CompactedTableSchema"),
                String::from_str("at least one h3 base resolution is required"),
            ),
        );
    }
    Ok(())
}

impl CompactedTableSchema {
    /// Checks the columns that the engine names.
    fn validate_engine(&self) -> (r: Result<(), Error>)
        ensures
            match engine_fault(self@) {
                Some(e) => r is Err && r->Err_0@ == e,
                None => r is Ok,
            },
    {
        match &self.table_engine {
            TableEngine::SummingMergeTree(wanted) => {
                let ghost views = schema_columns(self.columns@);
                let ghost names = texts(wanted@);
                let mut missing: Vec<String> = Vec::new();
                let mut i: usize = 0;
                assert(texts(missing@) =~= missing_of(views, names.take(0)));
                while i < wanted.len()
                    invariant
                        i <= wanted.len(),
                        views == schema_columns(self.columns@),
                        names == texts(wanted@),
                        texts(missing@) == missing_of(views, names.take(i as int)),
                    decreases wanted.len() - i,
                {
                    assert(names.take(i + 1).drop_last() =~= names.take(i as int));
                    assert(names.take(i + 1).last() == names[i as int]);
                    if find_column(&self.columns, wanted[i].as_str()).is_none() {
                        let ghost before = missing@;
                        missing.push(wanted[i].clone());
                        assert(texts(missing@) =~= texts(before).push(names[i as int]));
                    }
                    i += 1;
                }
                assert(names.take(wanted@.len() as int) =~= names);
                if missing.len() > 0 {
                    let list = join(&missing, ", ");
                    let mut message = String::new();
                    message.append("SummingMergeTree engine is missing columns: ");
                    message.append(list.as_str());
                    return Err(
                        Error::SchemaValidationError(String::from_str("TableEngine"), message),
                    );
                }
                Ok(())
            },
            _ => Ok(()),
        }
    }

    /// Checks the schema: the first thing that is wrong with it is the error.
    pub fn validate(&self) -> (r: Result<(), Error>)
        ensures
            match fault(self@) {
                Some(e) => r is Err && r->Err_0@ == e,
                None => r is Ok,
            },
    {
        match validate_table_name("CompactedTableSchema", self.name.as_str()) {
            Err(e) => {
                return Err(e);
            },
            Ok(_) => {},
        }
        match self.compression_method.validate() {
            Err(e) => {
                return Err(e);
            },
            Ok(_) => {},
        }
        match self.h3index_column() {
            Err(e) => {
                return Err(e);
            },
            Ok(_) => {},
        }
        match self.validate_engine() {
            Err(e) => {
                return Err(e);
            },
            Ok(_) => {},
        }
        match validate_resolutions(&self.h3_base_resolutions) {
            Err(e) => {
                return Err(e);
            },
            Ok(_) => {},
        }
        match self.partition_by_expressions() {
            Err(e) => {
                return Err(e);
            },
            Ok(_) => {},
        }
        Ok(())
    }

    /// The columns of the schema, in the order of their names.
    pub fn get_columns(&self) -> (columns: Vec<(String, ColumnDefinition)>)
        ensures
            schema_columns(columns@) == self@.columns,
            names_rising(self@.columns),
    {
        proof {
            use_type_invariant(self);
        }
        let mut columns: Vec<(String, ColumnDefinition)> = Vec::new();
        let mut i: usize = 0;
        while i < self.columns.len()
            invariant
                i <= self.columns.len(),
                columns.len() == i,
                forall|j: int|
                    0 <= j < i ==> (#[trigger] columns@[j]).0@ == self.columns@[j].0@ && columns@[j].1
                        == self.columns@[j].1,
            decreases self.columns.len() - i,
        {
            columns.push((self.columns[i].0.clone(), self.columns[i].1));
            i += 1;
        }
        assert(schema_columns(columns@) =~= schema_columns(self.columns@));
        columns
    }

    /// The name of the schema, which is the basename of its tables.
    pub fn name(&self) -> (name: String)
        ensures
            name@ == self@.name,
    {
        self.name.clone()
    }

    /// The finest resolution that the schema has tables for.
    pub fn max_h3_resolution(&self) -> (r: Result<u8, Error>)
        ensures
            self@.h3_base_resolutions.len() > 0 ==> r == Ok::<u8, Error>(
                max_resolution(self@.h3_base_resolutions),
            ),
            self@.h3_base_resolutions.len() == 0 ==> r is Err && r->Err_0@ == ErrorView::MixedResolutions,
    {
        if self.h3_base_resolutions.len() == 0 {
            Err(Error::MixedResolutions)
        } else {
            Ok(greatest_resolution(&self.h3_base_resolutions))
        }
    }

    pub fn has_base_suffix(&self) -> (b: bool)
        ensures
            b == self@.has_base_suffix,
    {
        self.has_base_suffix
    }

    pub fn table_engine(&self) -> (e: TableEngine)
        ensures
            e@ == self@.table_engine,
    {
        self.table_engine.clone()
    }

    pub fn compression_method(&self) -> (m: CompressionMethod)
        ensures
            m == self@.compression_method,
    {
        self.compression_method
    }

    /// The resolutions that the schema has base tables for.
    pub fn h3_base_resolutions(&self) -> (rs: Vec<u8>)
        ensures
            rs@ == self@.h3_base_resolutions,
    {
        let mut rs: Vec<u8> = Vec::new();
        let mut i: usize = 0;
        while i < self.h3_base_resolutions.len()
            invariant
                i <= self.h3_base_resolutions.len(),
                rs@ == self.h3_base_resolutions@.take(i as int),
            decreases self.h3_base_resolutions.len() - i,
        {
            rs.push(self.h3_base_resolutions[i]);
            assert(rs@ =~= self.h3_base_resolutions@.take(i + 1));
            i += 1;
        }
        assert(self.h3_base_resolutions@.take(self.h3_base_resolutions@.len() as int)
            =~= self.h3_base_resolutions@);
        rs
    }

    pub fn temporal_resolution(&self) -> (r: TemporalResolution)
        ensures
            r == self@.temporal_resolution,
    {
        self.temporal_resolution
    }

    pub fn temporal_partitioning(&self) -> (p: TemporalPartitioning)
        ensures
            p == self@.temporal_partitioning,
    {
        self.temporal_partitioning
    }

    /// The columns named to partition by.
    pub fn partition_by_columns(&self) -> (names: Vec<String>)
        ensures
            texts(names@) == self@.partition_by_columns,
    {
        clone_strings(&self.partition_by_columns)
    }

    pub fn use_compaction(&self) -> (b: bool)
        ensures
            b == self@.use_compaction,
    {
        self.use_compaction
    }
}

// ---------------------------------------------------------------------------
// Building a schema

/// Collects the parts of a schema; [`CompactedTableSchemaBuilder::build`]
/// hands the schema out if nothing is wrong with it.
pub struct CompactedTableSchemaBuilder {
    schema: CompactedTableSchema,
}

impl View for CompactedTableSchemaBuilder {
    type V = CompactedTableSchemaView;

    closed spec fn view(&self) -> CompactedTableSchemaView {
        self.schema@
    }
}

/// The schema that a builder starts with.
pub open spec fn initial_schema(name: Seq<char>) -> CompactedTableSchemaView {
    CompactedTableSchemaView {
        name,
        table_engine: TableEngineView::ReplacingMergeTree,
        compression_method: CompressionMethod::ZSTD(6),
        h3_base_resolutions: Seq::empty(),
        use_compaction: true,
        temporal_resolution: TemporalResolution::Second,
        temporal_partitioning: TemporalPartitioning::Month,
        columns: seq![("h3index"@, ColumnDefinition::H3Index)],
        partition_by_columns: Seq::empty(),
        has_base_suffix: true,
    }
}

impl CompactedTableSchemaBuilder {
    /// A builder for the schema named `table_name`, with the column of
    /// the cell index and nothing else.
    pub fn new(table_name: &str) -> (b: Self)
        ensures
            b@ == initial_schema(table_name@),
    {
        let mut columns: Vec<(String, ColumnDefinition)> = Vec::new();
        columns.push((String::from_str(crate::COL_NAME_H3INDEX), ColumnDefinition::H3Index));
        assert(schema_columns(columns@) =~= seq![("h3index"@, ColumnDefinition::H3Index)]);
        let schema = CompactedTableSchema {
            name: String::from_str(table_name),
            table_engine: TableEngine::ReplacingMergeTree,
            compression_method: CompressionMethod::ZSTD(6),
            h3_base_resolutions: Vec::new(),
            use_compaction: true,
            temporal_resolution: TemporalResolution::Second,
            temporal_partitioning: TemporalPartitioning::Month,
            columns,
            partition_by_columns: Vec::new(),
            has_base_suffix: true,
        };
        assert(schema@.partition_by_columns =~= Seq::empty());
        CompactedTableSchemaBuilder { schema }
    }

    pub fn table_engine(self, table_engine: TableEngine) -> (b: Self)
        ensures
            b@ == (CompactedTableSchemaView { table_engine: table_engine@, ..self@ }),
    {
        let mut schema = self.schema;
        proof {
            use_type_invariant(&schema);
        }
        schema.table_engine = table_engine;
        CompactedTableSchemaBuilder { schema }
    }

    pub fn compression_method(self, compression_method: CompressionMethod) -> (b: Self)
        ensures
            b@ == (CompactedTableSchemaView { compression_method, ..self@ }),
    {
        let mut schema = self.schema;
        proof {
            use_type_invariant(&schema);
        }
        schema.compression_method = compression_method;
        CompactedTableSchemaBuilder { schema }
    }

    pub fn h3_base_resolutions(self, h3res: Vec<u8>) -> (b: Self)
        ensures
            b@ == (CompactedTableSchemaView { h3_base_resolutions: h3res@, ..self@ }),
    {
        let mut schema = self.schema;
        proof {
            use_type_invariant(&schema);
        }
        schema.h3_base_resolutions = h3res;
        CompactedTableSchemaBuilder { schema }
    }

    pub fn use_compacted_resolutions(self, use_compaction: bool) -> (b: Self)
        ensures
            b@ == (CompactedTableSchemaView { use_compaction, ..self@ }),
    {
        let mut schema = self.schema;
        proof {
            use_type_invariant(&schema);
        }
        schema.use_compaction = use_compaction;
        CompactedTableSchemaBuilder { schema }
    }

    pub fn temporal_resolution(self, temporal_resolution: TemporalResolution) -> (b: Self)
        ensures
            b@ == (CompactedTableSchemaView { temporal_resolution, ..self@ }),
    {
        let mut schema = self.schema;
        proof {
            use_type_invariant(&schema);
        }
        schema.temporal_resolution = temporal_resolution;
        CompactedTableSchemaBuilder { schema }
    }

    pub fn temporal_partitioning(self, temporal_partitioning: TemporalPartitioning) -> (b: Self)
        ensures
            b@ == (CompactedTableSchemaView { temporal_partitioning, ..self@ }),
    {
        let mut schema = self.schema;
        proof {
            use_type_invariant(&schema);
        }
        schema.temporal_partitioning = temporal_partitioning;
        CompactedTableSchemaBuilder { schema }
    }

    /// Adds the column `column_name`, in place of a column of that name
    /// that was added before.
    pub fn add_column(self, column_name: &str, def: ColumnDefinition) -> (b: Self)
        ensures
            b@ == (CompactedTableSchemaView {
                columns: with_column(self@.columns, column_name@, def),
                ..self@
            }),
    {
        proof {
            use_type_invariant(&self.schema);
        }
        let CompactedTableSchema {
            name,
            table_engine,
            compression_method,
            h3_base_resolutions,
            use_compaction,
            temporal_resolution,
            temporal_partitioning,
            columns,
            partition_by_columns,
            has_base_suffix,
        } = self.schema;
        proof {
            lemma_with_column_rising(schema_columns(columns@), column_name@, def);
        }
        let mut columns = columns;
        put_column(&mut columns, column_name, def);
        CompactedTableSchemaBuilder {
            schema: CompactedTableSchema {
                name,
                table_engine,
                compression_method,
                h3_base_resolutions,
                use_compaction,
                temporal_resolution,
                temporal_partitioning,
                columns,
                partition_by_columns,
                has_base_suffix,
            },
        }
    }

    /// Says whether the names of the tables carry `_base` or `_compacted`.
    pub fn has_base_suffix(self, has_base_suffix: bool) -> (b: Self)
        ensures
            b@ == (CompactedTableSchemaView { has_base_suffix, ..self@ }),
    {
        let mut schema = self.schema;
        proof {
            use_type_invariant(&schema);
        }
        schema.has_base_suffix = has_base_suffix;
        CompactedTableSchemaBuilder { schema }
    }

    /// Names the columns to partition by, in place of the temporal column.
    pub fn partition_by(self, columns: Vec<String>) -> (b: Self)
        ensures
            b@ == (CompactedTableSchemaView { partition_by_columns: texts(columns@), ..self@ }),
    {
        let mut schema = self.schema;
        proof {
            use_type_invariant(&schema);
        }
        schema.partition_by_columns = columns;
        CompactedTableSchemaBuilder { schema }
    }

    /// The schema, if nothing is wrong with it; else the first fault.
    pub fn build(self) -> (r: Result<CompactedTableSchema, Error>)
        ensures
            match fault(self@) {
                Some(e) => r is Err && r->Err_0@ == e,
                None => r is Ok && r->Ok_0@ == self@ && names_rising(self@.columns),
            },
    {
        proof {
            use_type_invariant(&self.schema);
        }
        match self.schema.validate() {
            Err(e) => Err(e),
            Ok(_) => Ok(self.schema),
        }
    }
}

/// A schema of any of the kinds that the store knows.
pub enum Schema {
    CompactedTable(CompactedTableSchema),
}

impl Schema {
    pub fn validate(&self) -> (r: Result<(), Error>)
        ensures
            match self {
                Schema::CompactedTable(s) => match fault(s@) {
                    Some(e) => r is Err && r->Err_0@ == e,
                    None => r is Ok,
                },
            },
    {
        match self {
            Schema::CompactedTable(s) => s.validate(),
        }
    }

    pub fn create_statements(&self) -> (r: Result<Vec<String>, Error>)
        ensures
            match self {
                Schema::CompactedTable(s) => texts_or_error(r) == statements(s@),
            },
    {
        match self {
            Schema::CompactedTable(s) => s.create_statements(),
        }
    }

    pub fn get_columns(&self) -> (columns: Vec<(String, ColumnDefinition)>)
        ensures
            match self {
                Schema::CompactedTable(s) => schema_columns(columns@) == s@.columns,
            },
    {
        match self {
            Schema::CompactedTable(s) => s.get_columns(),
        }
    }
}


/// The greatest of some resolutions is one of them, or 0.
pub proof fn lemma_max_resolution(rs: Seq<u8>, bound: u8)
    requires
        forall|i: int| 0 <= i < rs.len() ==> #[trigger] rs[i] <= bound,
    ensures
        max_resolution(rs) <= bound,
    decreases rs.len(),
{
    if rs.len() > 0 {
        let front = rs.drop_last();
        assert forall|i: int| 0 <= i < front.len() implies #[trigger] front[i] <= bound by {
            assert(front[i] == rs[i]);
        }
        lemma_max_resolution(front, bound);
        assert(rs.last() == rs[rs.len() - 1]);
    }
}

/// The names of the tables of a schema read back as those tables, where
/// nothing is wrong with the schema, its name has two characters at
/// least, and the names of its tables say which of them are compacted.
pub proof fn lemma_schema_tables_round_trip(v: CompactedTableSchemaView, i: int)
    requires
        fault(v) is None,
        v.name.len() >= 2,
        v.has_base_suffix,
        0 <= i < schema_tables(v).len(),
    ensures
        crate::table::reading(table_name(schema_tables(v)[i])) == Some(schema_tables(v)[i]),
{
    let rs = v.h3_base_resolutions;
    lemma_leading_is_run(rs, |r: u8| r <= 15);
    assert forall|k: int| 0 <= k < rs.len() implies #[trigger] rs[k] <= 15 by {
        let keep = |r: u8| r <= 15;
        assert(keep(rs[k]));
    }
    lemma_max_resolution(rs, 15);
    let t = schema_tables(v)[i];
    assert(t.spec.h3_resolution <= 15);
    assert(crate::table::round_trips(t));
    crate::table::lemma_name_round_trip(t);
}


/// A schema with nothing wrong has its statements: one for each of its tables.
pub proof fn lemma_sound_schema_has_statements(v: CompactedTableSchemaView)
    requires
        fault(v) is None,
    ensures
        statements(v) is Ok,
        statements(v)->Ok_0.len() == schema_tables(v).len(),
        schema_tables(v).len() == v.h3_base_resolutions.len() + if v.use_compaction {
            max_resolution(v.h3_base_resolutions) + 1
        } else {
            0
        },
{
}


/// The names of the temporal columns, in the order of the columns.
pub open spec fn temporal_names(columns: Seq<Column>) -> Seq<Seq<char>>
    decreases columns.len(),
{
    if columns.len() == 0 {
        Seq::empty()
    } else if is_temporal_type(column_datatype(columns.last().1)) {
        temporal_names(columns.drop_last()).push(columns.last().0)
    } else {
        temporal_names(columns.drop_last())
    }
}

/// Temporal columns of different names are written differently, and none
/// as the base cell of a cell index is.
pub proof fn lemma_temporal_expression_tells(
    a: Seq<char>,
    b: Seq<char>,
    h3: Seq<char>,
    partitioning: TemporalPartitioning,
)
    ensures
        temporal_expression(a, partitioning) == temporal_expression(b, partitioning) ==> a == b,
        temporal_expression(a, partitioning) != partition_expression(
            h3,
            ColumnDefinition::H3Index,
            partitioning,
        ),
{
    reveal_strlit("toString(toYear(");
    reveal_strlit("toString(toMonth(");
    reveal_strlit("))");
    reveal_strlit("h3GetBaseCell(");
    let x = temporal_expression(a, partitioning);
    let y = temporal_expression(b, partitioning);
    let front: int = match partitioning {
        TemporalPartitioning::Year => 16,
        TemporalPartitioning::Month => 17,
    };
    assert(x.len() == front + a.len() + 2);
    assert(y.len() == front + b.len() + 2);
    if x == y {
        assert forall|i: int| 0 <= i < a.len() implies a[i] == b[i] by {
            assert(x[front + i] == a[i]);
            assert(y[front + i] == b[i]);
        }
        assert(a =~= b);
    }
    let base = partition_expression(h3, ColumnDefinition::H3Index, partitioning);
    assert(x[0] == 't');
    assert(base[0] == 'h');
}

/// Whether `name` is the name of one of `columns`.
pub open spec fn is_column_name(columns: Seq<Column>, name: Seq<char>) -> bool {
    exists|i: int| 0 <= i < columns.len() && (#[trigger] columns[i]).0 == name
}

/// The names of the temporal columns are names of columns.
proof fn lemma_temporal_names_are_columns(columns: Seq<Column>)
    ensures
        forall|k: int|
            0 <= k < temporal_names(columns).len() ==> is_column_name(
                columns,
                #[trigger] temporal_names(columns)[k],
            ),
    decreases columns.len(),
{
    if columns.len() > 0 {
        let front = columns.drop_last();
        lemma_temporal_names_are_columns(front);
        let names = temporal_names(columns);
        let before = temporal_names(front);
        assert forall|k: int| 0 <= k < names.len() implies is_column_name(
            columns,
            #[trigger] names[k],
        ) by {
            if k < before.len() {
                assert(names[k] == before[k]);
                assert(is_column_name(front, before[k]));
                let i = choose|i: int| 0 <= i < front.len() && (#[trigger] front[i]).0 == before[k];
                assert(columns[i] == front[i]);
            } else {
                assert(columns[columns.len() - 1].0 == names[k]);
            }
        }
    }
}

/// Where no columns are named to partition by, the temporal columns are
/// written behind the first expression, each once.
pub proof fn lemma_temporal_expressions(
    h3: Seq<char>,
    columns: Seq<Column>,
    partitioning: TemporalPartitioning,
)
    requires
        names_rising(columns),
    ensures
        temporal_expressions(
            seq![partition_expression(h3, ColumnDefinition::H3Index, partitioning)],
            columns,
            partitioning,
        ) == seq![partition_expression(h3, ColumnDefinition::H3Index, partitioning)] + Seq::new(
            temporal_names(columns).len(),
            |k: int| temporal_expression(temporal_names(columns)[k], partitioning),
        ),
    decreases columns.len(),
{
    let first = seq![partition_expression(h3, ColumnDefinition::H3Index, partitioning)];
    let names = temporal_names(columns);
    let written = Seq::new(names.len(), |k: int| temporal_expression(names[k], partitioning));
    if columns.len() == 0 {
        assert(first =~= first + written);
    } else {
        let front = columns.drop_last();
        let c = columns.last();
        assert forall|a: int, b: int| 0 <= a < b < front.len() implies text_less(
            (#[trigger] front[a]).0,
            (#[trigger] front[b]).0,
        ) by {
            assert(front[a] == columns[a] && front[b] == columns[b]);
        }
        lemma_temporal_expressions(h3, front, partitioning);
        let before_names = temporal_names(front);
        let before = Seq::new(
            before_names.len(),
            |k: int| temporal_expression(before_names[k], partitioning),
        );
        if is_temporal_type(column_datatype(c.1)) {
            let e = partition_expression(c.0, c.1, partitioning);
            assert(e == temporal_expression(c.0, partitioning));
            lemma_temporal_names_are_columns(front);
            assert(!(first + before).contains(e)) by {
                if (first + before).contains(e) {
                    let k = choose|k: int| 0 <= k < (first + before).len() && (first + before)[k] == e;
                    if k == 0 {
                        lemma_temporal_expression_tells(c.0, c.0, h3, partitioning);
                    } else {
                        assert((first + before)[k] == before[k - 1]);
                        lemma_temporal_expression_tells(before_names[k - 1], c.0, h3, partitioning);
                        assert(is_column_name(front, before_names[k - 1]));
                        let i = choose|i: int|
                            0 <= i < front.len() && (#[trigger] front[i]).0 == before_names[k - 1];
                        assert(front[i] == columns[i]);
                        assert(text_less(columns[i].0, columns[columns.len() - 1].0));
                        lemma_less_irreflexive(c.0);
                    }
                }
            }
            assert((first + before).push(e) =~= first + written);
        } else {
            assert(first + before =~= first + written);
        }
    }
}

/// The partitioning of a schema that names no columns for it: by the
/// base cell of the cell index alone where the schema has no temporal
/// column, by the base cell and the one temporal column where it has
/// one, and a fault where it has more.
pub proof fn lemma_partition_by_temporal(v: CompactedTableSchemaView)
    requires
        names_rising(v.columns),
        h3index_column_of(v.columns) is Ok,
        v.partition_by_columns.len() == 0,
    ensures
        ({
            let first = partition_expression(
                "h3index"@,
                ColumnDefinition::H3Index,
                v.temporal_partitioning,
            );
            let names = temporal_names(v.columns);
            if names.len() == 0 {
                partition_by(v) == Ok::<Seq<Seq<char>>, ErrorView>(seq![first])
            } else if names.len() == 1 {
                partition_by(v) == Ok::<Seq<Seq<char>>, ErrorView>(
                    seq![first, temporal_expression(names[0], v.temporal_partitioning)],
                )
            } else {
                partition_by(v) is Err
            }
        }),
{
    lemma_temporal_expressions("h3index"@, v.columns, v.temporal_partitioning);
    let first = partition_expression("h3index"@, ColumnDefinition::H3Index, v.temporal_partitioning);
    let names = temporal_names(v.columns);
    let written = Seq::new(
        names.len(),
        |k: int| temporal_expression(names[k], v.temporal_partitioning),
    );
    if names.len() == 0 {
        assert(seq![first] + written =~= seq![first]);
    } else if names.len() == 1 {
        assert(seq![first] + written =~= seq![
            first,
            temporal_expression(names[0], v.temporal_partitioning),
        ]);
    }
}


} // verus!
