//! Tablesets: the tables of one basename, by resolution, some holding data at
//! their own resolution ("base") and some holding compacted ancestor cells.

use std::collections::HashMap;
use vstd::prelude::*;
use vstd::set_lib::{lemma_len_subset, FiniteRange};
use crate::error::{Error, ErrorView};
use crate::table::{Table, TableSpec, TableSpecView, TableView};
use crate::text::{contains, contains_text};

verus! {

broadcast use vstd::std_specs::hash::group_hash_axioms;

/// How the rows of a tableset are selected.
pub enum TableSetQuery {
    /// A query generated from the columns of the tableset.
    AutoGenerated,
    /// A select statement with the placeholders `<[table]>`, for the table
    /// to read, and `<[h3indexes]>`, for the list of cells to look up. The
    /// columns it selects must include the cell index, named `h3index`.
    TemplatedSelect(String),
}

/// Mathematical value of a [`TableSetQuery`].
pub enum TableSetQueryView {
    AutoGenerated,
    TemplatedSelect(Seq<char>),
}

impl View for TableSetQuery {
    type V = TableSetQueryView;

    open spec fn view(&self) -> TableSetQueryView {
        match self {
            TableSetQuery::AutoGenerated => TableSetQueryView::AutoGenerated,
            TableSetQuery::TemplatedSelect(t) => TableSetQueryView::TemplatedSelect(t@),
        }
    }
}

/// The placeholder for the table to read.
pub open spec fn table_placeholder() -> Seq<char> {
    "<[table]>"@
}

/// The placeholder for the list of cells to look up.
pub open spec fn cells_placeholder() -> Seq<char> {
    "<[h3indexes]>"@
}

/// The first placeholder that the query lacks.
pub open spec fn missing_placeholder(q: TableSetQueryView) -> Option<Seq<char>> {
    match q {
        TableSetQueryView::AutoGenerated => None,
        TableSetQueryView::TemplatedSelect(t) => if !contains_text(t, table_placeholder()) {
            Some(table_placeholder())
        } else if !contains_text(t, cells_placeholder()) {
            Some(cells_placeholder())
        } else {
            None
        },
    }
}

impl Clone for TableSetQuery {
    fn clone(&self) -> (q: Self)
        ensures
            q == *self,
    {
        match self {
            TableSetQuery::AutoGenerated => TableSetQuery::AutoGenerated,
            TableSetQuery::TemplatedSelect(t) => TableSetQuery::TemplatedSelect(t.clone()),
        }
    }
}

impl TableSetQuery {
    /// Accepts a generated query, and a template that holds both placeholders.
    pub fn validate(&self) -> (r: Result<(), Error>)
        ensures
            match missing_placeholder(self@) {
                Some(p) => r is Err && r->Err_0@ == ErrorView::MissingQueryPlaceholder(p),
                None => r is Ok,
            },
    {
        match self {
            TableSetQuery::AutoGenerated => Ok(()),
            TableSetQuery::TemplatedSelect(template) => {
                if !contains(template.as_str(), "<[table]>") {
                    return Err(Error::MissingQueryPlaceholder(String::from_str("<[table]>")));
                }
                if !contains(template.as_str(), "<[h3indexes]>") {
                    return Err(Error::MissingQueryPlaceholder(String::from_str("<[h3indexes]>")));
                }
                Ok(())
            },
        }
    }

    /// The query for an optional template: the template where there is
    /// one, a generated query where there is none.
    pub fn from_template(template: Option<String>) -> (q: Self)
        ensures
            match template {
                Some(t) => q@ == TableSetQueryView::TemplatedSelect(t@),
                None => q@ == TableSetQueryView::AutoGenerated,
            },
    {
        match template {
            Some(t) => TableSetQuery::TemplatedSelect(t),
            None => TableSetQuery::AutoGenerated,
        }
    }
}

impl From<Option<String>> for TableSetQuery {
    fn from(template: Option<String>) -> (q: Self) {
        match template {
            Some(t) => TableSetQuery::TemplatedSelect(t),
            None => TableSetQuery::AutoGenerated,
        }
    }
}

impl vstd::std_specs::convert::FromSpecImpl<Option<String>> for TableSetQuery {
    open spec fn obeys_from_spec() -> bool {
        true
    }

    open spec fn from_spec(template: Option<String>) -> Self {
        match template {
            Some(t) => TableSetQuery::TemplatedSelect(t),
            None => TableSetQuery::AutoGenerated,
        }
    }
}

/// The tables of one basename.
pub struct TableSet {
    pub basename: String,
    /// The columns that every table of the set has, each with its SQL type.
    pub columns: Vec<(String, String)>,
    pub base_tables: HashMap<u8, TableSpec>,
    pub compacted_tables: HashMap<u8, TableSpec>,
}

/// Mathematical value of a [`TableSet`].
pub struct TableSetView {
    pub basename: Seq<char>,
    pub columns: Seq<(Seq<char>, Seq<char>)>,
    pub base_tables: Map<u8, TableSpecView>,
    pub compacted_tables: Map<u8, TableSpecView>,
}

/// The tables of a map, each by its value.
pub open spec fn spec_views(m: Map<u8, TableSpec>) -> Map<u8, TableSpecView> {
    m.map_values(|s: TableSpec| s@)
}

/// The columns of a list, each by its value.
pub open spec fn column_views(columns: Seq<(String, String)>) -> Seq<(Seq<char>, Seq<char>)> {
    columns.map_values(|c: (String, String)| (c.0@, c.1@))
}

impl View for TableSet {
    type V = TableSetView;

    open spec fn view(&self) -> TableSetView {
        TableSetView {
            basename: self.basename@,
            columns: column_views(self.columns@),
            base_tables: spec_views(self.base_tables@),
            compacted_tables: spec_views(self.compacted_tables@),
        }
    }
}

/// The keys of `m` below `n`, in rising order.
pub open spec fn keys_below(m: Map<u8, TableSpecView>, n: int) -> Seq<u8>
    decreases n,
{
    if n <= 0 {
        Seq::empty()
    } else {
        let before = keys_below(m, n - 1);
        if m.contains_key((n - 1) as u8) {
            before.push((n - 1) as u8)
        } else {
            before
        }
    }
}

/// The resolutions that `m` has a table for, in rising order.
pub open spec fn resolutions(m: Map<u8, TableSpecView>) -> Seq<u8> {
    keys_below(m, 256)
}

/// The tables of `m` under `basename`, by rising resolution.
pub open spec fn tables_in(basename: Seq<char>, m: Map<u8, TableSpecView>) -> Seq<TableView> {
    resolutions(m).map_values(|r: u8| TableView { basename, spec: m[r] })
}

/// The tables of a list, each by its value.
pub open spec fn table_views(tables: Seq<Table>) -> Seq<TableView> {
    tables.map_values(|t: Table| t@)
}

/// The keys below `n` are exactly those of the map that are below `n`, and
/// they rise.
pub proof fn lemma_keys_below(m: Map<u8, TableSpecView>, n: int)
    requires
        0 <= n <= 256,
    ensures
        forall|i: int|
            0 <= i < keys_below(m, n).len() ==> m.contains_key(#[trigger] keys_below(m, n)[i])
                && keys_below(m, n)[i] < n,
        forall|k: u8| #[trigger] m.contains_key(k) && k < n ==> keys_below(m, n).contains(k),
        forall|i: int, j: int|
            0 <= i < j < keys_below(m, n).len() ==> #[trigger] keys_below(m, n)[i]
                < #[trigger] keys_below(m, n)[j],
        keys_below(m, n).len() <= n,
    decreases n,
{
    if n > 0 {
        lemma_keys_below(m, n - 1);
        let before = keys_below(m, n - 1);
        let all = keys_below(m, n);
        let last = (n - 1) as u8;
        if m.contains_key(last) {
            assert(all == before.push(last));
            assert forall|k: u8| #[trigger] m.contains_key(k) && k < n implies all.contains(k) by {
                if k == last {
                    assert(all[before.len() as int] == k);
                } else {
                    assert(before.contains(k));
                    let i = choose|i: int| 0 <= i < before.len() && before[i] == k;
                    assert(all[i] == k);
                }
            }
            assert forall|i: int, j: int| 0 <= i < j < all.len() implies #[trigger] all[i]
                < #[trigger] all[j] by {
                assert(all[i] == before[i]);
                if j < before.len() {
                    assert(all[j] == before[j]);
                }
            }
        } else {
            assert(all == before);
        }
    }
}

/// A map keyed by `u8` holds 256 entries at most.
pub proof fn lemma_at_most_256<V>(m: Map<u8, V>)
    requires
        m.dom().finite(),
    ensures
        m.len() <= 256,
{
    let all = <u8 as FiniteRange>::range_set(0, 255).insert(255);
    <u8 as FiniteRange>::range_properties(0, 255);
    vstd::set::axiom_set_insert_finite(<u8 as FiniteRange>::range_set(0, 255), 255);
    vstd::set::axiom_set_insert_len(<u8 as FiniteRange>::range_set(0, 255), 255);
    assert(m.dom().subset_of(all)) by {
        assert forall|k: u8| m.dom().contains(k) implies all.contains(k) by {
            if k != 255 {
                assert(<u8 as FiniteRange>::range_set(0, 255).contains(k));
            }
        }
    }
    lemma_len_subset(m.dom(), all);
}

/// The tables that `m` holds under `basename`, by rising resolution.
fn tables_of(basename: &String, m: &HashMap<u8, TableSpec>) -> (tables: Vec<Table>)
    ensures
        table_views(tables@) == tables_in(basename@, spec_views(m@)),
{
    let mut tables: Vec<Table> = Vec::new();
    let ghost views = spec_views(m@);
    let mut r: u16 = 0;
    assert(table_views(tables@) =~= keys_below(views, 0).map_values(
        |r: u8| TableView { basename: basename@, spec: views[r] },
    ));
    while r < 256
        invariant
            r <= 256,
            views == spec_views(m@),
            table_views(tables@) == keys_below(views, r as int).map_values(
                |r: u8| TableView { basename: basename@, spec: views[r] },
            ),
        decreases 256 - r,
    {
        let key: u8 = r as u8;
        match m.get(&key) {
            Some(spec) => {
                let ghost before = tables@;
                tables.push(Table { basename: basename.clone(), spec: spec.clone() });
                assert(table_views(tables@) =~= table_views(before).push(
                    TableView { basename: basename@, spec: views[key] },
                ));
                assert(keys_below(views, r + 1).map_values(
                    |r: u8| TableView { basename: basename@, spec: views[r] },
                ) =~= keys_below(views, r as int).map_values(
                    |r: u8| TableView { basename: basename@, spec: views[r] },
                ).push(TableView { basename: basename@, spec: views[key] }));
            },
            None => {},
        }
        r += 1;
    }
    tables
}

/// The keys of `m`, in rising order.
fn keys_of(m: &HashMap<u8, TableSpec>) -> (keys: Vec<u8>)
    ensures
        keys@ == resolutions(spec_views(m@)),
{
    let mut keys: Vec<u8> = Vec::new();
    let ghost views = spec_views(m@);
    let mut r: u16 = 0;
    while r < 256
        invariant
            r <= 256,
            views == spec_views(m@),
            keys@ == keys_below(views, r as int),
        decreases 256 - r,
    {
        let key: u8 = r as u8;
        if m.contains_key(&key) {
            keys.push(key);
        }
        r += 1;
    }
    keys
}

impl TableSet {
    /// A tableset that holds no table yet.
    pub fn new(basename: &str) -> (ts: TableSet)
        ensures
            ts@ == (TableSetView {
                basename: basename@,
                columns: Seq::empty(),
                base_tables: Map::empty(),
                compacted_tables: Map::empty(),
            }),
    {
        let ts = TableSet {
            basename: String::from_str(basename),
            columns: Vec::new(),
            base_tables: HashMap::new(),
            compacted_tables: HashMap::new(),
        };
        assert(ts@.columns =~= Seq::empty());
        assert(ts@.base_tables =~= Map::empty());
        assert(ts@.compacted_tables =~= Map::empty());
        ts
    }

    /// The basename of the set.
    pub fn as_ref(&self) -> (basename: &str)
        ensures
            basename@ == self@.basename,
    {
        self.basename.as_str()
    }

    /// The resolutions of the base tables, rising.
    pub fn base_resolutions(&self) -> (r: Vec<u8>)
        ensures
            r@ == resolutions(self@.base_tables),
    {
        keys_of(&self.base_tables)
    }

    /// The resolutions of the compacted tables, rising.
    pub fn compacted_resolutions(&self) -> (r: Vec<u8>)
        ensures
            r@ == resolutions(self@.compacted_tables),
    {
        keys_of(&self.compacted_tables)
    }

    /// The compacted tables, by rising resolution.
    pub fn compacted_tables(&self) -> (tables: Vec<Table>)
        ensures
            table_views(tables@) == tables_in(self@.basename, self@.compacted_tables),
    {
        tables_of(&self.basename, &self.compacted_tables)
    }

    /// The base tables, by rising resolution.
    pub fn base_tables(&self) -> (tables: Vec<Table>)
        ensures
            table_views(tables@) == tables_in(self@.basename, self@.base_tables),
    {
        tables_of(&self.basename, &self.base_tables)
    }

    /// All tables: the base tables, then the compacted ones.
    pub fn tables(&self) -> (tables: Vec<Table>)
        ensures
            table_views(tables@) == tables_in(self@.basename, self@.base_tables) + tables_in(
                self@.basename,
                self@.compacted_tables,
            ),
    {
        let mut tables = self.base_tables();
        let mut compacted = self.compacted_tables();
        let ghost base = tables@;
        let ghost more = compacted@;
        tables.append(&mut compacted);
        assert(table_views(tables@) =~= table_views(base) + table_views(more));
        tables
    }

    /// The number of tables in the set.
    pub fn num_tables(&self) -> (n: usize)
        ensures
            n == self@.base_tables.len() + self@.compacted_tables.len(),
    {
        proof {
            lemma_at_most_256(self.base_tables@);
            lemma_at_most_256(self.compacted_tables@);
            assert(self@.base_tables.dom() =~= self.base_tables@.dom());
            assert(self@.compacted_tables.dom() =~= self.compacted_tables@.dom());
        }
        self.base_tables.len() + self.compacted_tables.len()
    }
}

// ---------------------------------------------------------------------------
// Discovery

/// A tableset that holds no table.
pub open spec fn empty_set(basename: Seq<char>) -> TableSetView {
    TableSetView {
        basename,
        columns: Seq::empty(),
        base_tables: Map::empty(),
        compacted_tables: Map::empty(),
    }
}

/// The tableset `ts` with the table of properties `s` added: among the
/// compacted tables where `s` says so, else among the base tables, under
/// its resolution, in place of what stood there.
pub open spec fn set_with(ts: TableSetView, s: TableSpecView) -> TableSetView {
    if s.is_compacted {
        TableSetView { compacted_tables: ts.compacted_tables.insert(s.h3_resolution, s), ..ts }
    } else {
        TableSetView { base_tables: ts.base_tables.insert(s.h3_resolution, s), ..ts }
    }
}

/// The place of the tableset named `basename` in `sets`, or -1.
pub open spec fn index_of(sets: Seq<TableSetView>, basename: Seq<char>) -> int {
    if exists|i: int| 0 <= i < sets.len() && sets[i].basename == basename {
        choose|i: int|
            0 <= i < sets.len() && sets[i].basename == basename && forall|j: int|
                0 <= j < i ==> sets[j].basename != basename
    } else {
        -1
    }
}

/// The tablesets `sets` with table `t` added to the set of its basename,
/// which is appended where `sets` does not hold it yet.
pub open spec fn sets_with(sets: Seq<TableSetView>, t: TableView) -> Seq<TableSetView> {
    let i = index_of(sets, t.basename);
    if i < 0 {
        sets.push(set_with(empty_set(t.basename), t.spec))
    } else {
        sets.update(i, set_with(sets[i], t.spec))
    }
}

/// The tablesets that a list of table names makes up: each name that reads
/// as a table which is not temporary adds that table, a later name taking
/// the place of an earlier one of the same kind and resolution; the sets
/// stand in the order in which their basenames first occur.
pub open spec fn discovered(names: Seq<Seq<char>>) -> Seq<TableSetView>
    decreases names.len(),
{
    if names.len() == 0 {
        Seq::empty()
    } else {
        let before = discovered(names.drop_last());
        match crate::table::reading(names.last()) {
            Some(t) => if t.spec.temporary_key is None {
                sets_with(before, t)
            } else {
                before
            },
            None => before,
        }
    }
}

/// The tablesets of a list, each by its value.
pub open spec fn set_views(sets: Seq<TableSet>) -> Seq<TableSetView> {
    sets.map_values(|ts: TableSet| ts@)
}

/// The names of a list, each by its characters.
pub open spec fn name_views(names: Seq<&str>) -> Seq<Seq<char>> {
    names.map_values(|n: &str| n@)
}

/// The place of the tableset named `basename` in `sets`.
fn find_set(sets: &Vec<TableSet>, basename: &str) -> (at: Option<usize>)
    ensures
        match at {
            Some(i) => i < sets.len() && index_of(set_views(sets@), basename@) == i,
            None => index_of(set_views(sets@), basename@) == -1,
        },
{
    let ghost views = set_views(sets@);
    let mut i: usize = 0;
    while i < sets.len()
        invariant
            i <= sets.len(),
            views == set_views(sets@),
            forall|j: int| 0 <= j < i ==> views[j].basename != basename@,
        decreases sets.len() - i,
    {
        if crate::text::same_text(sets[i].basename.as_str(), basename) {
            assert(views[i as int].basename == basename@);
            return Some(i);
        }
        i += 1;
    }
    None
}

/// Puts table `t` into the set of its basename.
fn put_table(sets: &mut Vec<TableSet>, t: Table)
    ensures
        set_views(final(sets)@) == sets_with(set_views(old(sets)@), t@),
{
    let ghost before = set_views(sets@);
    let Table { basename, spec } = t;
    let ghost s = spec@;
    let place = find_set(sets, basename.as_str());
    let (mut ts, at) = match place {
        Some(i) => (sets.remove(i), i),
        None => (TableSet::new(basename.as_str()), sets.len()),
    };
    let ghost ts_before = ts@;
    if spec.is_compacted {
        ts.compacted_tables.insert(spec.h3_resolution, spec);
        assert(ts@.compacted_tables =~= ts_before.compacted_tables.insert(s.h3_resolution, s));
    } else {
        ts.base_tables.insert(spec.h3_resolution, spec);
        assert(ts@.base_tables =~= ts_before.base_tables.insert(s.h3_resolution, s));
    }
    assert(ts@ == set_with(ts_before, s));
    sets.insert(at, ts);
    assert(set_views(sets@) =~= sets_with(before, t@));
}

/// The tablesets that the table names of a database make up. Names that
/// are no table names, and temporary tables, are passed over.
pub fn find_tablesets(tablenames: &[&str]) -> (sets: Vec<TableSet>)
    ensures
        set_views(sets@) == discovered(name_views(tablenames@)),
{
    let mut sets: Vec<TableSet> = Vec::new();
    let ghost names = name_views(tablenames@);
    let mut i: usize = 0;
    assert(set_views(sets@) =~= discovered(names.take(0)));
    while i < tablenames.len()
        invariant
            i <= tablenames.len(),
            names == name_views(tablenames@),
            set_views(sets@) == discovered(names.take(i as int)),
        decreases tablenames.len() - i,
    {
        assert(names.take(i + 1).drop_last() =~= names.take(i as int));
        assert(names.take(i + 1).last() == tablenames@[i as int]@);
        match Table::parse(tablenames[i]) {
            Some(table) => {
                if !table.spec.is_temporary() {
                    put_table(&mut sets, table);
                }
            },
            None => {},
        }
        i += 1;
    }
    assert(names.take(tablenames@.len() as int) =~= names);
    sets
}


/// What holds of every tableset that discovery makes: the basename follows
/// the grammar, each table stands under its own resolution and is not
/// temporary, the compacted tables are the ones marked so, and there is at
/// least one table.
pub open spec fn is_tableset(ts: TableSetView) -> bool {
    &&& crate::table::is_basename(ts.basename)
    &&& forall|r: u8| #[trigger]
        ts.base_tables.contains_key(r) ==> {
            &&& ts.base_tables[r].h3_resolution == r
            &&& ts.base_tables[r].temporary_key is None
            &&& !ts.base_tables[r].is_compacted
            &&& r <= 99
        }
    &&& forall|r: u8| #[trigger]
        ts.compacted_tables.contains_key(r) ==> {
            &&& ts.compacted_tables[r].h3_resolution == r
            &&& ts.compacted_tables[r].temporary_key is None
            &&& ts.compacted_tables[r].is_compacted
            &&& ts.compacted_tables[r].has_base_suffix
            &&& r <= 99
        }
    &&& exists|r: u8| has_table_at(ts, r)
}

/// Whether `ts` has a table, base or compacted, at resolution `r`.
pub open spec fn has_table_at(ts: TableSetView, r: u8) -> bool {
    ts.base_tables.contains_key(r) || ts.compacted_tables.contains_key(r)
}

/// No two tablesets of `sets` share a basename.
pub open spec fn distinct_basenames(sets: Seq<TableSetView>) -> bool {
    forall|i: int, j: int|
        0 <= i < j < sets.len() ==> #[trigger] sets[i].basename != #[trigger] sets[j].basename
}

/// Discovery makes tablesets, each under a basename of its own.
pub proof fn lemma_discovered_tablesets(names: Seq<Seq<char>>)
    ensures
        forall|i: int|
            0 <= i < discovered(names).len() ==> is_tableset(#[trigger] discovered(names)[i]),
        distinct_basenames(discovered(names)),
    decreases names.len(),
{
    if names.len() > 0 {
        lemma_discovered_tablesets(names.drop_last());
        crate::table::lemma_reading_is_table(names.last());
        let before = discovered(names.drop_last());
        match crate::table::reading(names.last()) {
            Some(t) => {
                if t.spec.temporary_key is None {
                    let after = sets_with(before, t);
                    let r = t.spec.h3_resolution;
                    let i = index_of(before, t.basename);
                    if i < 0 {
                        let added = set_with(empty_set(t.basename), t.spec);
                        assert(has_table_at(added, r));
                        assert(is_tableset(added));
                        assert forall|k: int| 0 <= k < after.len() implies is_tableset(
                            #[trigger] after[k],
                        ) by {
                            if k < before.len() {
                                assert(after[k] == before[k]);
                            }
                        }
                        assert forall|a: int, b: int| 0 <= a < b < after.len() implies #[trigger] after[a].basename
                            != #[trigger] after[b].basename by {
                            assert(after[a] == before[a]);
                            if b < before.len() {
                                assert(after[b] == before[b]);
                            }
                        }
                    } else {
                        let changed = set_with(before[i], t.spec);
                        assert(is_tableset(before[i]));
                        assert(has_table_at(changed, r));
                        assert(is_tableset(changed));
                        assert forall|k: int| 0 <= k < after.len() implies is_tableset(
                            #[trigger] after[k],
                        ) by {
                            if k != i {
                                assert(after[k] == before[k]);
                            }
                        }
                        assert forall|a: int, b: int| 0 <= a < b < after.len() implies #[trigger] after[a].basename
                            != #[trigger] after[b].basename by {
                            assert(after[a].basename == before[a].basename);
                            assert(after[b].basename == before[b].basename);
                        }
                    }
                }
            },
            None => {},
        }
    }
}


/// Whether the tableset `ts` holds the table `t`.
pub open spec fn holds_table(ts: TableSetView, t: TableView) -> bool {
    &&& ts.basename == t.basename
    &&& if t.spec.is_compacted {
        ts.compacted_tables.contains_key(t.spec.h3_resolution)
            && ts.compacted_tables[t.spec.h3_resolution] == t.spec
    } else {
        ts.base_tables.contains_key(t.spec.h3_resolution) && ts.base_tables[t.spec.h3_resolution]
            == t.spec
    }
}

/// Whether one of `names` reads as the table `t`.
pub open spec fn is_named(names: Seq<Seq<char>>, t: TableView) -> bool {
    exists|i: int| 0 <= i < names.len() && crate::table::reading(#[trigger] names[i]) == Some(t)
}

/// Whether one of `sets` has a table of the kind and resolution of `t`
/// under its basename.
pub open spec fn is_covered(sets: Seq<TableSetView>, t: TableView) -> bool {
    exists|k: int|
        0 <= k < sets.len() && (#[trigger] sets[k]).basename == t.basename && if t.spec.is_compacted {
            sets[k].compacted_tables.contains_key(t.spec.h3_resolution)
        } else {
            sets[k].base_tables.contains_key(t.spec.h3_resolution)
        }
}

/// A table that a tableset holds once the table `added` has been put in
/// is `added`, or a table that the tableset held before.
proof fn lemma_sets_with_holds(sets: Seq<TableSetView>, added: TableView, k: int, t: TableView)
    requires
        0 <= k < sets_with(sets, added).len(),
        holds_table(sets_with(sets, added)[k], t),
        t != added,
    ensures
        k < sets.len(),
        holds_table(sets[k], t),
{
    lemma_index_of(sets, added.basename);
    let at = index_of(sets, added.basename);
    let after = sets_with(sets, added);
    if at < 0 {
        if k == sets.len() {
            assert(after[k] == set_with(empty_set(added.basename), added.spec));
            assert(t.spec == added.spec);
        } else {
            assert(after[k] == sets[k]);
        }
    } else if k == at {
        assert(after[k] == set_with(sets[at], added.spec));
        assert(t.spec != added.spec);
    } else {
        assert(after[k] == sets[k]);
    }
}

/// Once the table `added` has been put in, it is covered, and so is
/// every table that was covered before.
proof fn lemma_sets_with_covers(sets: Seq<TableSetView>, added: TableView, t: TableView)
    requires
        t == added || is_covered(sets, t),
    ensures
        is_covered(sets_with(sets, added), t),
{
    lemma_index_of(sets, added.basename);
    let at = index_of(sets, added.basename);
    let after = sets_with(sets, added);
    if t == added {
        let k = if at < 0 {
            sets.len() as int
        } else {
            at
        };
        assert(after[k].basename == t.basename);
    } else {
        let k = choose|k: int|
            0 <= k < sets.len() && (#[trigger] sets[k]).basename == t.basename && if t.spec.is_compacted {
                sets[k].compacted_tables.contains_key(t.spec.h3_resolution)
            } else {
                sets[k].base_tables.contains_key(t.spec.h3_resolution)
            };
        if at >= 0 && k == at {
            assert(after[k] == set_with(sets[at], added.spec));
        } else {
            assert(after[k] == sets[k]);
        }
        assert(after[k].basename == t.basename);
    }
}

/// Discovery finds no tables but those that are named: every table that
/// a tableset holds is what one of the names reads as, and is not temporary.
pub proof fn lemma_discovered_is_named(names: Seq<Seq<char>>)
    ensures
        forall|k: int, t: TableView|
            0 <= k < discovered(names).len() && #[trigger] holds_table(discovered(names)[k], t)
                ==> is_named(names, t) && t.spec.temporary_key is None,
    decreases names.len(),
{
    if names.len() > 0 {
        let front = names.drop_last();
        let last = names.len() - 1;
        lemma_discovered_is_named(front);
        let before = discovered(front);
        let after = discovered(names);
        let added = crate::table::reading(names.last());
        let adds = added is Some && added->0.spec.temporary_key is None;
        assert forall|k: int, t: TableView|
            0 <= k < after.len() && #[trigger] holds_table(after[k], t) implies is_named(names, t)
            && t.spec.temporary_key is None by {
            if adds && t == added->0 {
                assert(crate::table::reading(names[last]) == Some(t));
            } else {
                if adds {
                    lemma_sets_with_holds(before, added->0, k, t);
                }
                assert(holds_table(before[k], t));
                assert(is_named(front, t));
                let i = choose|i: int|
                    0 <= i < front.len() && crate::table::reading(#[trigger] front[i]) == Some(t);
                assert(names[i] == front[i]);
            }
        }
    }
}

/// Discovery finds the tables that are named: every name that reads as
/// a table which is not temporary has its basename, kind and resolution
/// in one of the tablesets.
pub proof fn lemma_discovered_covers(names: Seq<Seq<char>>)
    ensures
        forall|i: int|
            0 <= i < names.len() && crate::table::reading(#[trigger] names[i]) is Some
                && crate::table::reading(names[i])->0.spec.temporary_key is None ==> is_covered(
                discovered(names),
                crate::table::reading(names[i])->0,
            ),
    decreases names.len(),
{
    if names.len() > 0 {
        let front = names.drop_last();
        let last = names.len() - 1;
        lemma_discovered_covers(front);
        let before = discovered(front);
        let after = discovered(names);
        let added = crate::table::reading(names.last());
        let adds = added is Some && added->0.spec.temporary_key is None;
        assert forall|i: int|
            0 <= i < names.len() && crate::table::reading(#[trigger] names[i]) is Some
                && crate::table::reading(names[i])->0.spec.temporary_key is None implies is_covered(
            after,
            crate::table::reading(names[i])->0,
        ) by {
            let t = crate::table::reading(names[i])->0;
            if i < last {
                assert(front[i] == names[i]);
                if adds {
                    lemma_sets_with_covers(before, added->0, t);
                }
            } else {
                lemma_sets_with_covers(before, t, t);
            }
        }
    }
}

/// The place of a tableset is the first place that holds its basename.
pub proof fn lemma_index_of(sets: Seq<TableSetView>, basename: Seq<char>)
    ensures
        index_of(sets, basename) == -1 || (0 <= index_of(sets, basename) < sets.len()
            && sets[index_of(sets, basename)].basename == basename),
        index_of(sets, basename) == -1 ==> forall|i: int|
            0 <= i < sets.len() ==> (#[trigger] sets[i]).basename != basename,
{
    if exists|i: int| 0 <= i < sets.len() && sets[i].basename == basename {
        let w = choose|i: int| 0 <= i < sets.len() && sets[i].basename == basename;
        lemma_first_set(sets, basename, w);
    }
}

/// Where a basename stands at place `w`, there is a first place that holds it.
proof fn lemma_first_set(sets: Seq<TableSetView>, basename: Seq<char>, w: int)
    requires
        0 <= w < sets.len(),
        sets[w].basename == basename,
    ensures
        exists|i: int|
            0 <= i < sets.len() && sets[i].basename == basename && forall|j: int|
                0 <= j < i ==> sets[j].basename != basename,
    decreases w,
{
    if exists|j: int| 0 <= j < w && sets[j].basename == basename {
        let j = choose|j: int| 0 <= j < w && sets[j].basename == basename;
        lemma_first_set(sets, basename, j);
    } else {
        assert(0 <= w < sets.len() && sets[w].basename == basename && forall|j: int|
            0 <= j < w ==> sets[j].basename != basename);
    }
}


} // verus!
