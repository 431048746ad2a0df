//! Saving a set of columns into the tables of a schema: the checks and
//! the plan; the statements themselves are for the caller to run.

use vstd::prelude::*;
use crate::columnset::{
    column_index, find_named, is_columnset, named_columns, picked, ColVec, ColVecView, ColumnSet,
    NamedColumn,
};
use crate::compacted_tables::{
    column_of, find_column, max_resolution, schema_columns, schema_table, Column,
    CompactedTableSchema, Schema,
};
use crate::error::{Error, ErrorView};
use crate::h3::{cell_resolution, resolution_of};
use crate::order::{leading, lemma_leading};
use crate::schema::{column_datatype, Datatype};
use crate::table::{Table, TableSpec, TableView};
use crate::uncompact::cells_of;

verus! {

/// Whether the schema has the column `c` with the type of its values.
pub open spec fn fits_schema(columns: Seq<Column>, c: NamedColumn) -> bool {
    match column_of(columns, c.0) {
        Some(def) => column_datatype(def) == c.1.datatype,
        None => false,
    }
}

/// What keeps the column `c` from being saved under the schema.
pub open spec fn column_fault(columns: Seq<Column>, c: NamedColumn) -> ErrorView {
    match column_of(columns, c.0) {
        Some(_) => ErrorView::IncompatibleDatatype,
        None => ErrorView::ColumnNotFound(c.0),
    }
}

/// Checks that the schema has every column of `columnset`, with the type
/// of its values. The first column that the schema lacks, or has with
/// another type, is the error.
#[verifier::loop_isolation(false)]
pub fn check_columnset(schema: &Schema, columnset: &ColumnSet) -> (r: Result<(), Error>)
    ensures
        ({
            let columns = match schema {
                Schema::CompactedTable(s) => s@.columns,
            };
            let bad = leading(columnset@, |c: NamedColumn| fits_schema(columns, c));
            if bad < columnset@.len() {
                r is Err && r->Err_0@ == column_fault(columns, columnset@[bad])
            } else {
                r is Ok
            }
        }),
{
    let defined = schema.get_columns();
    let given = columnset.columns();
    let ghost columns = schema_columns(defined@);
    let ghost views = named_columns(given@);
    let ghost keep = |c: NamedColumn| fits_schema(columns, c);
    let mut i: usize = 0;
    while i < given.len()
        invariant
            i <= given.len(),
            columns == schema_columns(defined@),
            views == named_columns(given@),
            keep == |c: NamedColumn| fits_schema(columns, c),
            forall|j: int| 0 <= j < i ==> keep(#[trigger] views[j]),
        decreases given.len() - i,
    {
        match find_column(&defined, given[i].0.as_str()) {
            Some(def) => {
                if given[i].1.datatype() != def.datatype() {
                    proof {
                        lemma_leading(views, keep, i as int);
                    }
                    return Err(Error::IncompatibleDatatype);
                }
            },
            None => {
                proof {
                    lemma_leading(views, keep, i as int);
                }
                return Err(Error::ColumnNotFound(given[i].0.clone()));
            },
        }
        assert(keep(views[i as int]));
        i += 1;
    }
    proof {
        lemma_leading(views, keep, views.len() as int);
    }
    Ok(())
}

/// The places of the rows whose cell has the resolution `r`, rising.
pub open spec fn rows_at(cells: Seq<u64>, r: u8) -> Seq<usize>
    decreases cells.len(),
{
    if cells.len() == 0 {
        Seq::empty()
    } else if resolution_of(cells.last()) == r {
        rows_at(cells.drop_last(), r).push((cells.len() - 1) as usize)
    } else {
        rows_at(cells.drop_last(), r)
    }
}

/// The rows `rows` of the columns; without the column at `without`, if that is one.
pub open spec fn rows_of_columns(columns: Seq<NamedColumn>, rows: Seq<usize>, without: int) -> Seq<
    NamedColumn,
> {
    Seq::new(
        (if 0 <= without < columns.len() {
            columns.len() - 1
        } else {
            columns.len() as int
        }) as nat,
        |i: int|
            {
                let from = if 0 <= without <= i {
                    columns[i + 1]
                } else {
                    columns[i]
                };
                (
                    from.0,
                    ColVecView { datatype: from.1.datatype, values: picked(from.1.values, rows) },
                )
            },
    )
}

/// The parts of a set of columns by the resolution of the cells in the
/// column at `at`: for each resolution below `n` that a row has, rising,
/// the rows of that resolution.
pub open spec fn split_below(columns: Seq<NamedColumn>, at: int, without: int, n: int) -> Seq<
    (u8, Seq<NamedColumn>),
>
    decreases n,
{
    if n <= 0 {
        Seq::empty()
    } else {
        let before = split_below(columns, at, without, n - 1);
        let rows = rows_at(cells_of(columns[at].1.values), (n - 1) as u8);
        if rows.len() > 0 {
            before.push(((n - 1) as u8, rows_of_columns(columns, rows, without)))
        } else {
            before
        }
    }
}

/// A set of columns split by the resolution of the cells in its column
/// `h3col`, which is left out of the parts where `drop_h3col` says so.
pub open spec fn split_of(columns: Seq<NamedColumn>, h3col: Seq<char>, drop_h3col: bool) -> Result<
    Seq<(u8, Seq<NamedColumn>)>,
    ErrorView,
> {
    let at = column_index(columns, h3col);
    if at < 0 {
        Err(ErrorView::ColumnNotFound(h3col))
    } else if columns[at].1.datatype != Datatype::U64 {
        Err(ErrorView::IncompatibleDatatype)
    } else {
        Ok(
            split_below(
                columns,
                at,
                if drop_h3col {
                    at
                } else {
                    -1
                },
                16,
            ),
        )
    }
}

/// The parts of a list, each by its value.
pub open spec fn part_views(parts: Seq<(u8, ColumnSet)>) -> Seq<(u8, Seq<NamedColumn>)> {
    Seq::new(parts.len(), |i: int| (parts[i].0, parts[i].1@))
}

/// The places of the rows whose cell has the resolution `r`.
fn find_rows(cells: &Vec<u64>, r: u8) -> (rows: Vec<usize>)
    ensures
        rows@ == rows_at(cells@, r),
        forall|i: int| 0 <= i < rows.len() ==> #[trigger] rows[i] < cells.len(),
{
    let mut rows: Vec<usize> = Vec::new();
    let mut i: usize = 0;
    assert(cells@.take(0) =~= Seq::<u64>::empty());
    while i < cells.len()
        invariant
            i <= cells.len(),
            rows@ == rows_at(cells@.take(i as int), r),
            forall|j: int| 0 <= j < rows.len() ==> #[trigger] rows[j] < i,
        decreases cells.len() - i,
    {
        assert(cells@.take(i + 1).drop_last() =~= cells@.take(i as int));
        assert(cells@.take(i + 1).last() == cells@[i as int]);
        if cell_resolution(cells[i]) == r {
            rows.push(i);
        }
        i += 1;
    }
    assert(cells@.take(cells@.len() as int) =~= cells@);
    rows
}

/// The rows `rows` of the columns, without the column at `without`.
#[verifier::loop_isolation(false)]
fn pick_rows(columns: &Vec<(String, ColVec)>, rows: &Vec<usize>, without: Option<usize>) -> (out:
    ColumnSet)
    requires
        is_columnset(named_columns(columns@)),
        forall|i: int, j: int|
            0 <= i < rows.len() && 0 <= j < columns.len() ==> #[trigger] rows[i] < (
            #[trigger] named_columns(columns@)[j]).1.values.len(),
    ensures
        out@ == rows_of_columns(
            named_columns(columns@),
            rows@,
            match without {
                Some(w) => w as int,
                None => -1,
            },
        ),
{
    let ghost views = named_columns(columns@);
    let ghost skip: int = match without {
        Some(w) => w as int,
        None => -1,
    };
    let ghost expected = rows_of_columns(views, rows@, skip);
    let mut out: Vec<(String, ColVec)> = Vec::new();
    let mut i: usize = 0;
    while i < columns.len()
        invariant
            i <= columns.len(),
            out.len() == if 0 <= skip < i {
                i - 1
            } else {
                i as int
            },
            forall|j: int|
                0 <= j < out.len() ==> (#[trigger] named_columns(out@)[j]) == expected[j],
        decreases columns.len() - i,
    {
        let skipped = match without {
            Some(w) => w == i,
            None => false,
        };
        if !skipped {
            assert forall|k: int| 0 <= k < rows.len() implies #[trigger] rows[k]
                < columns[i as int].1@.values.len() by {
                assert(rows[k] < views[i as int].1.values.len());
            }
            let picked_column = columns[i].1.pick(rows);
            let ghost before = named_columns(out@);
            out.push((columns[i].0.clone(), picked_column));
            proof {
                let after = named_columns(out@);
                assert forall|j: int| 0 <= j < out.len() implies (#[trigger] named_columns(out@)[j])
                    == expected[j] by {
                    if j < before.len() {
                        assert(after[j] == before[j]);
                    }
                }
            }
        }
        i += 1;
    }
    proof {
        let after = named_columns(out@);
        assert(after =~= expected);
        assert forall|a: int, b: int| 0 <= a < b < after.len() implies (#[trigger] after[a]).0 != (
        #[trigger] after[b]).0 by {
            let x = if 0 <= skip <= a {
                a + 1
            } else {
                a
            };
            let y = if 0 <= skip <= b {
                b + 1
            } else {
                b
            };
            assert(after[a].0 == views[x].0 && after[b].0 == views[y].0);
            assert(views[x].0 != views[y].0);
        }
    }
    ColumnSet::from_columns(out)
}

impl ColumnSet {
    /// Splits the rows by the resolution of the cells in the column
    /// `h3col`. The parts stand by rising resolution; each holds the rows
    /// of its resolution in their order, without the column `h3col`
    /// where `drop_h3col` says so.
    pub fn split_by_resolution(&self, h3col: &str, drop_h3col: bool) -> (r: Result<
        Vec<(u8, ColumnSet)>,
        Error,
    >)
        ensures
            match split_of(self@, h3col@, drop_h3col) {
                Ok(parts) => r is Ok && part_views(r->Ok_0@) == parts,
                Err(e) => r is Err && r->Err_0@ == e,
            },
    {
        let columns = self.columns();
        let at = match find_named(columns, h3col) {
            Some(at) => at,
            None => {
                return Err(Error::ColumnNotFound(String::from_str(h3col)));
            },
        };
        let cells = match &columns[at].1 {
            ColVec::U64(cells) => cells,
            _ => {
                return Err(Error::IncompatibleDatatype);
            },
        };
        let ghost views = named_columns(columns@);
        assert(cells@ =~= cells_of(views[at as int].1.values));
        let without = if drop_h3col {
            Some(at)
        } else {
            None
        };
        let ghost skip: int = if drop_h3col {
            at as int
        } else {
            -1
        };
        let mut parts: Vec<(u8, ColumnSet)> = Vec::new();
        let mut r: u8 = 0;
        assert(part_views(parts@) =~= split_below(views, at as int, skip, 0));
        while r < 16
            invariant
                r <= 16,
                at < columns.len(),
                views == named_columns(columns@),
                is_columnset(views),
                cells@ == cells_of(views[at as int].1.values),
                skip == (if drop_h3col {
                    at as int
                } else {
                    -1
                }),
                without == (if drop_h3col {
                    Some(at)
                } else {
                    None
                }),
                part_views(parts@) == split_below(views, at as int, skip, r as int),
            decreases 16 - r,
        {
            let rows = find_rows(cells, r);
            if rows.len() > 0 {
                assert forall|i: int, j: int|
                    0 <= i < rows.len() && 0 <= j < columns.len() implies #[trigger] rows[i] < (
                #[trigger] views[j]).1.values.len() by {
                    assert(views[j].1.values.len() == views[at as int].1.values.len());
                }
                let part = pick_rows(columns, &rows, without);
                let ghost before = part_views(parts@);
                parts.push((r, part));
                assert(part_views(parts@) =~= before.push((r, part@)));
            }
            r += 1;
        }
        Ok(parts)
    }
}

/// The tables that the parts of a set of columns go into: for each of
/// the resolutions `resolutions`, the table of the schema at that
/// resolution, which is the base table at the finest resolution of the
/// schema and a compacted table at any coarser one.
pub open spec fn insert_tables_of(v: crate::compacted_tables::CompactedTableSchemaView, resolutions: Seq<u8>) -> Seq<
    TableView,
> {
    Seq::new(
        resolutions.len(),
        |i: int|
            schema_table(v, resolutions[i], resolutions[i] != max_resolution(v.h3_base_resolutions)),
    )
}

/// The tables, as values.
pub open spec fn tables_view(tables: Seq<Table>) -> Seq<TableView> {
    Seq::new(tables.len(), |i: int| tables[i]@)
}

/// Plans the inserts for data of the resolutions `resolutions`: names the
/// table for each. Where there is nothing to save the plan is empty;
/// else the schema must have a base resolution, and none of the
/// resolutions may be finer than its finest.
pub fn insert_tables(schema: &CompactedTableSchema, resolutions: &Vec<u8>) -> (r: Result<
    Vec<Table>,
    Error,
>)
    ensures
        resolutions@.len() == 0 ==> r is Ok && r->Ok_0@.len() == 0,
        resolutions@.len() > 0 && schema@.h3_base_resolutions.len() == 0 ==> r is Err && r->Err_0@
            == ErrorView::MixedResolutions,
        resolutions@.len() > 0 && schema@.h3_base_resolutions.len() > 0 ==> (if max_resolution(
            resolutions@,
        ) > max_resolution(schema@.h3_base_resolutions) {
            r is Err && r->Err_0@ == ErrorView::InvalidResolution(max_resolution(resolutions@))
        } else {
            r is Ok && tables_view(r->Ok_0@) == insert_tables_of(schema@, resolutions@)
        }),
{
    if resolutions.len() == 0 {
        return Ok(Vec::new());
    }
    let finest = crate::compacted_tables::greatest_resolution(resolutions);
    let schema_finest = match schema.max_h3_resolution() {
        Ok(r) => r,
        Err(e) => {
            return Err(e);
        },
    };
    if finest > schema_finest {
        return Err(Error::InvalidResolution(finest));
    }
    let name = schema.name();
    let has_base_suffix = schema.has_base_suffix();
    let mut tables: Vec<Table> = Vec::new();
    let mut i: usize = 0;
    while i < resolutions.len()
        invariant
            i <= resolutions.len(),
            name@ == schema@.name,
            has_base_suffix == schema@.has_base_suffix,
            schema_finest == max_resolution(schema@.h3_base_resolutions),
            tables.len() == i,
            forall|j: int|
                0 <= j < i ==> (#[trigger] tables@[j])@ == insert_tables_of(schema@, resolutions@)[j],
        decreases resolutions.len() - i,
    {
        let r = resolutions[i];
        tables.push(
            Table {
                basename: name.clone(),
                spec: TableSpec {
                    h3_resolution: r,
                    is_compacted: schema_finest != r,
                    temporary_key: None,
                    has_base_suffix,
                },
            },
        );
        i += 1;
    }
    assert(tables_view(tables@) =~= insert_tables_of(schema@, resolutions@));
    Ok(tables)
}

} // verus!
