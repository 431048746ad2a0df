//! The columns of a tableset, as the catalog of the database has them.

use vstd::prelude::*;
use crate::planner::is_reserved;
use crate::table::table_name;
use crate::tableset::{column_views, tables_in, TableSet, TableSetView};
use crate::text::{join, joined, same_text, starts_with, texts};

verus! {

/// A column with its SQL type.
pub type TypedColumn = (Seq<char>, Seq<char>);

/// What the catalog says of one column: its name, its SQL type, and the
/// number of tables of the set that have it with that type.
pub type CatalogRow = (Seq<char>, Seq<char>, u64);

/// The rows of a list, each by its value.
pub open spec fn catalog_rows(rows: Seq<(String, String, u64)>) -> Seq<CatalogRow> {
    Seq::new(rows.len(), |i: int| (rows[i].0@, rows[i].1@, rows[i].2))
}

/// The query that lists the tables which have a column of cell indexes.
pub open spec fn tables_query() -> Seq<char> {
    "select table from system.columns where name = 'h3index' and database = currentDatabase()"@
}

/// The names of `tables`, each between single quotes.
pub open spec fn quoted_names(tables: Seq<crate::table::TableView>) -> Seq<Seq<char>> {
    Seq::new(tables.len(), |i: int| "'"@ + table_name(tables[i]) + "'"@)
}

/// The query that asks the catalog for the columns of the tables of
/// `ts`, with the number of tables that have each.
pub open spec fn columns_query(ts: TableSetView) -> Seq<char> {
    "select name, type, count(*) as c from system.columns where table in ("@ + joined(
        quoted_names(
            tables_in(ts.basename, ts.base_tables) + tables_in(ts.basename, ts.compacted_tables),
        ),
        ", "@,
    ) + ") and database = currentDatabase() and not startsWith(name, 'h3index') group by name, type"@
}

/// Whether a column stays: all `n` tables of the set have it with that
/// type, and its name is not reserved.
pub open spec fn stays(row: CatalogRow, n: nat) -> bool {
    row.2 == n && !is_reserved(row.0)
}

/// The place of the column `name`, or -1.
pub open spec fn typed_index(columns: Seq<TypedColumn>, name: Seq<char>) -> int {
    if exists|i: int| 0 <= i < columns.len() && columns[i].0 == name {
        choose|i: int|
            0 <= i < columns.len() && columns[i].0 == name && forall|j: int|
                0 <= j < i ==> columns[j].0 != name
    } else {
        -1
    }
}

/// The columns with `name` of the type `sqltype`: in place of the column
/// of that name, or else at the end.
pub open spec fn with_typed(columns: Seq<TypedColumn>, name: Seq<char>, sqltype: Seq<char>) -> Seq<
    TypedColumn,
> {
    let i = typed_index(columns, name);
    if i < 0 {
        columns.push((name, sqltype))
    } else {
        columns.update(i, (name, sqltype))
    }
}

/// The columns that stay of those that the catalog lists for a set of `n` tables.
pub open spec fn enriched(rows: Seq<CatalogRow>, n: nat) -> Seq<TypedColumn>
    decreases rows.len(),
{
    if rows.len() == 0 {
        Seq::empty()
    } else if stays(rows.last(), n) {
        with_typed(enriched(rows.drop_last(), n), rows.last().0, rows.last().1)
    } else {
        enriched(rows.drop_last(), n)
    }
}

/// The names of the columns that not all `n` tables have with one type.
pub open spec fn dropped(rows: Seq<CatalogRow>, n: nat) -> Seq<Seq<char>>
    decreases rows.len(),
{
    if rows.len() == 0 {
        Seq::empty()
    } else if rows.last().2 != n {
        dropped(rows.drop_last(), n).push(rows.last().0)
    } else {
        dropped(rows.drop_last(), n)
    }
}

/// Puts the column `name` of the type `sqltype` among `columns`.
fn put_typed(columns: &mut Vec<(String, String)>, name: &String, sqltype: &String)
    ensures
        column_views(final(columns)@) == with_typed(column_views(old(columns)@), name@, sqltype@),
{
    let ghost before = column_views(columns@);
    let mut i: usize = 0;
    while i < columns.len()
        invariant
            i <= columns.len(),
            before == column_views(columns@),
            forall|j: int| 0 <= j < i ==> before[j].0 != name@,
        ensures
            i <= columns.len(),
            forall|j: int| 0 <= j < i ==> before[j].0 != name@,
            i < columns.len() ==> before[i as int].0 == name@,
        decreases columns.len() - i,
    {
        if same_text(columns[i].0.as_str(), name.as_str()) {
            break;
        }
        i += 1;
    }
    if i < columns.len() {
        columns.remove(i);
        columns.insert(i, (name.clone(), sqltype.clone()));
        assert(typed_index(before, name@) == i);
        assert(column_views(columns@) =~= before.update(i as int, (name@, sqltype@)));
    } else {
        columns.push((name.clone(), sqltype.clone()));
        assert(column_views(columns@) =~= before.push((name@, sqltype@)));
    }
}

impl TableSet {
    /// The query that asks the catalog of the database for the columns of
    /// the tables of this set.
    pub fn columns_query(&self) -> (query: String)
        ensures
            query@ == columns_query(self@),
    {
        let tables = self.tables();
        let ghost views = crate::tableset::table_views(tables@);
        let mut names: Vec<String> = Vec::new();
        let mut i: usize = 0;
        while i < tables.len()
            invariant
                i <= tables.len(),
                views == crate::tableset::table_views(tables@),
                names.len() == i,
                forall|j: int| 0 <= j < i ==> (#[trigger] names@[j])@ == quoted_names(views)[j],
            decreases tables.len() - i,
        {
            let mut quoted = String::new();
            quoted.append("'");
            quoted.append(tables[i].to_table_name().as_str());
            quoted.append("'");
            assert(quoted@ =~= quoted_names(views)[i as int]);
            names.push(quoted);
            i += 1;
        }
        assert(texts(names@) =~= quoted_names(views));
        let list = join(&names, ", ");
        let mut query = String::new();
        query.append("select name, type, count(*) as c from system.columns where table in (");
        query.append(list.as_str());
        query.append(
            ") and database = currentDatabase() and not startsWith(name, 'h3index') group by name, type",
        );
        assert(query@ =~= columns_query(self@));
        query
    }

    /// Takes the columns of the set from what the catalog lists: a
    /// column stays where every table of the set has it with one type.
    /// Returns the names of the columns that not every table has so,
    /// which are left out.
    pub fn enrich_columns(&mut self, rows: &Vec<(String, String, u64)>) -> (left_out: Vec<String>)
        ensures
            final(self)@ == (TableSetView {
                columns: enriched(
                    catalog_rows(rows@),
                    old(self)@.base_tables.len() + old(self)@.compacted_tables.len(),
                ),
                ..old(self)@
            }),
            texts(left_out@) == dropped(
                catalog_rows(rows@),
                old(self)@.base_tables.len() + old(self)@.compacted_tables.len(),
            ),
    {
        let n = self.num_tables();
        let ghost all = catalog_rows(rows@);
        let mut columns: Vec<(String, String)> = Vec::new();
        let mut left_out: Vec<String> = Vec::new();
        let mut i: usize = 0;
        assert(column_views(columns@) =~= enriched(all.take(0), n as nat));
        assert(texts(left_out@) =~= dropped(all.take(0), n as nat));
        while i < rows.len()
            invariant
                i <= rows.len(),
                all == catalog_rows(rows@),
                column_views(columns@) == enriched(all.take(i as int), n as nat),
                texts(left_out@) == dropped(all.take(i as int), n as nat),
            decreases rows.len() - i,
        {
            assert(all.take(i + 1).drop_last() =~= all.take(i as int));
            assert(all.take(i + 1).last() == all[i as int]);
            let row = &rows[i];
            if row.2 == n as u64 {
                if !starts_with(row.0.as_str(), crate::COL_NAME_H3INDEX) {
                    put_typed(&mut columns, &row.0, &row.1);
                }
            } else {
                let ghost before = left_out@;
                left_out.push(row.0.clone());
                assert(texts(left_out@) =~= texts(before).push(row.0@));
            }
            i += 1;
        }
        assert(all.take(rows@.len() as int) =~= all);
        self.columns = columns;
        left_out
    }
}

/// The query that lists the tables which have a column of cell indexes.
pub fn tablesets_query() -> (query: String)
    ensures
        query@ == tables_query(),
{
    String::from_str(
        "select table from system.columns where name = 'h3index' and database = currentDatabase()",
    )
}

/// The place of a column is the first place that holds its name.
pub proof fn lemma_typed_index(columns: Seq<TypedColumn>, name: Seq<char>)
    ensures
        typed_index(columns, name) == -1 || (0 <= typed_index(columns, name) < columns.len()
            && columns[typed_index(columns, name)].0 == name),
        typed_index(columns, name) == -1 ==> forall|i: int|
            0 <= i < columns.len() ==> (#[trigger] columns[i]).0 != name,
{
    if exists|i: int| 0 <= i < columns.len() && columns[i].0 == name {
        let w = choose|i: int| 0 <= i < columns.len() && columns[i].0 == name;
        lemma_first_place(columns, name, w);
    }
}

/// Where a name stands at place `w`, there is a first place that holds it.
proof fn lemma_first_place(columns: Seq<TypedColumn>, name: Seq<char>, w: int)
    requires
        0 <= w < columns.len(),
        columns[w].0 == name,
    ensures
        exists|i: int|
            0 <= i < columns.len() && columns[i].0 == name && forall|j: int|
                0 <= j < i ==> columns[j].0 != name,
    decreases w,
{
    if exists|j: int| 0 <= j < w && columns[j].0 == name {
        let j = choose|j: int| 0 <= j < w && columns[j].0 == name;
        lemma_first_place(columns, name, j);
    } else {
        assert(0 <= w < columns.len() && columns[w].0 == name && forall|j: int|
            0 <= j < w ==> columns[j].0 != name);
    }
}

/// Whether the catalog lists the column `c` as one that stays.
pub open spec fn is_listed(rows: Seq<CatalogRow>, n: nat, c: TypedColumn) -> bool {
    exists|i: int| 0 <= i < rows.len() && #[trigger] rows[i] == (c.0, c.1, n as u64) && stays(rows[i], n)
}

/// A column is among the columns that stay only if the catalog lists it
/// as a column that all `n` tables have with that type.
pub proof fn lemma_enriched_is_listed(rows: Seq<CatalogRow>, n: nat)
    ensures
        forall|k: int|
            0 <= k < enriched(rows, n).len() ==> is_listed(rows, n, #[trigger] enriched(rows, n)[k]),
    decreases rows.len(),
{
    if rows.len() > 0 {
        let front = rows.drop_last();
        lemma_enriched_is_listed(front, n);
        let before = enriched(front, n);
        let all = enriched(rows, n);
        let last = rows.len() - 1;
        assert forall|k: int| 0 <= k < all.len() implies is_listed(rows, n, #[trigger] all[k]) by {
            if stays(rows.last(), n) && all[k] == (rows.last().0, rows.last().1) {
                assert(rows[last] == (all[k].0, all[k].1, n as u64));
            } else {
                if stays(rows.last(), n) {
                    let at = typed_index(before, rows.last().0);
                    lemma_typed_index(before, rows.last().0);
                    if at >= 0 {
                        assert(all == before.update(at, (rows.last().0, rows.last().1)));
                    } else {
                        assert(all == before.push((rows.last().0, rows.last().1)));
                    }
                }
                assert(k < before.len() && all[k] == before[k]);
                assert(is_listed(front, n, before[k]));
                let i = choose|i: int|
                    0 <= i < front.len() && #[trigger] front[i] == (
                        before[k].0,
                        before[k].1,
                        n as u64,
                    ) && stays(front[i], n);
                assert(rows[i] == front[i]);
            }
        }
    }
}

/// Whether the columns hold the column `name` with the type `sqltype`.
pub open spec fn has_typed(columns: Seq<TypedColumn>, name: Seq<char>, sqltype: Seq<char>) -> bool {
    exists|k: int| 0 <= k < columns.len() && #[trigger] columns[k] == (name, sqltype)
}

/// A column stays if and only if all tables of the set have it with one
/// type: it is among the columns of the set exactly if the catalog lists
/// it with the number of all tables, under a name that is not reserved.
/// (The catalog lists no name with two types that all tables have.)
pub proof fn lemma_enriched_columns(rows: Seq<CatalogRow>, n: nat, name: Seq<char>, sqltype: Seq<char>)
    requires
        forall|i: int, j: int|
            0 <= i < j < rows.len() && stays(#[trigger] rows[i], n) && stays(#[trigger] rows[j], n)
                ==> rows[i].0 != rows[j].0,
    ensures
        has_typed(enriched(rows, n), name, sqltype) <==> is_listed(rows, n, (name, sqltype)),
    decreases rows.len(),
{
    lemma_enriched_is_listed(rows, n);
    let all = enriched(rows, n);
    if has_typed(all, name, sqltype) {
        let k = choose|k: int| 0 <= k < all.len() && #[trigger] all[k] == (name, sqltype);
        assert(is_listed(rows, n, all[k]));
    }
    if rows.len() > 0 {
        let front = rows.drop_last();
        let last = rows.len() - 1;
        assert forall|i: int, j: int|
            0 <= i < j < front.len() && stays(#[trigger] front[i], n) && stays(
                #[trigger] front[j],
                n,
            ) implies front[i].0 != front[j].0 by {
            assert(front[i] == rows[i] && front[j] == rows[j]);
        }
        lemma_enriched_columns(front, n, name, sqltype);
        let before = enriched(front, n);
        if is_listed(rows, n, (name, sqltype)) {
            let i = choose|i: int|
                0 <= i < rows.len() && #[trigger] rows[i] == (name, sqltype, n as u64) && stays(
                    rows[i],
                    n,
                );
            let at = typed_index(before, rows.last().0);
            lemma_typed_index(before, rows.last().0);
            if i == last {
                if at < 0 {
                    assert(all[before.len() as int] == (name, sqltype));
                } else {
                    assert(all[at] == (name, sqltype));
                }
            } else {
                assert(front[i] == rows[i]);
                assert(is_listed(front, n, (name, sqltype)));
                let k = choose|k: int| 0 <= k < before.len() && #[trigger] before[k] == (name, sqltype);
                if stays(rows.last(), n) {
                    assert(rows[last].0 != rows[i].0);
                    assert(at != k);
                }
                assert(all[k] == (name, sqltype));
            }
        }
    }
}

} // verus!
