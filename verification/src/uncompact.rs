//! Uncompaction: the rows that a lookup found under the ancestors of the
//! cells asked for are expanded to rows of those cells.

use std::collections::HashSet;
use vstd::prelude::*;
use crate::columnset::{
    column_index, counts, find_named, is_columnset, lemma_repeated_len, named_columns, plain,
    repeated, rows_of, total, u64_int, ColVec, ColVecView, ColumnSet, NamedColumn,
};
use crate::error::{Error, ErrorView};
use crate::h3::{
    cell_children, cell_is_valid, cell_resolution, children_of, is_valid_cell, resolution_of,
};
use crate::order::{leading, lemma_leading};
use crate::schema::Datatype;

verus! {

broadcast use vstd::std_specs::hash::group_hash_axioms;

/// Those of `cells` that are in `wanted`, in their order.
pub open spec fn kept(cells: Seq<u64>, wanted: Set<u64>) -> Seq<u64>
    decreases cells.len(),
{
    if cells.len() == 0 {
        Seq::empty()
    } else if wanted.contains(cells.last()) {
        kept(cells.drop_last(), wanted).push(cells.last())
    } else {
        kept(cells.drop_last(), wanted)
    }
}

/// The cells of resolution `target` that the row of cell `c` stands for:
/// `c` itself where it has that resolution, else those of its
/// descendants that are wanted.
pub open spec fn expansion(c: u64, target: u8, wanted: Set<u64>) -> Seq<u64> {
    if resolution_of(c) == target {
        seq![c]
    } else {
        kept(children_of(c, target), wanted)
    }
}

/// The cells that the rows stand for, row by row.
pub open spec fn expanded(rows: Seq<u64>, target: u8, wanted: Set<u64>) -> Seq<u64>
    decreases rows.len(),
{
    if rows.len() == 0 {
        Seq::empty()
    } else {
        expanded(rows.drop_last(), target, wanted) + expansion(rows.last(), target, wanted)
    }
}

/// The number of cells that each row stands for.
pub open spec fn repetitions(rows: Seq<u64>, target: u8, wanted: Set<u64>) -> Seq<nat> {
    Seq::new(rows.len(), |i: int| expansion(rows[i], target, wanted).len())
}

/// Whether the row of cell `c` can be expanded to resolution `target`.
pub open spec fn is_expandable(c: u64, target: u8) -> bool {
    is_valid_cell(c) && resolution_of(c) <= target
}

/// What keeps the row of cell `c` from being expanded.
pub open spec fn row_fault(c: u64, target: u8) -> ErrorView {
    if !is_valid_cell(c) {
        ErrorView::InvalidCell(c)
    } else {
        ErrorView::InvalidResolution(resolution_of(c))
    }
}

/// The cells that a column of the type `UInt64` holds.
pub open spec fn cells_of(values: Seq<Option<int>>) -> Seq<u64> {
    Seq::new(values.len(), |i: int| values[i]->0 as u64)
}

/// The block `block` of rows found for `cells`, uncompacted: the columns
/// beside the cell index in their order, each value as often as its row
/// stands for cells, and at the end the column of the cell index with
/// those cells. It fails where there are no cells to go by or the first
/// of them is none, where the block has no column `h3index` of the type
/// `UInt64`, and on the first row whose cell is none or is finer than the
/// cells asked for.
pub open spec fn uncompacted(block: Seq<NamedColumn>, cells: Seq<u64>) -> Result<
    Seq<NamedColumn>,
    ErrorView,
> {
    let at = column_index(block, "h3index"@);
    if cells.len() == 0 {
        Err(ErrorView::EmptyCells)
    } else if !is_valid_cell(cells[0]) {
        Err(ErrorView::InvalidCell(cells[0]))
    } else if at < 0 {
        Err(ErrorView::ColumnNotFound("h3index"@))
    } else if block[at].1.datatype != Datatype::U64 {
        Err(ErrorView::IncompatibleDatatype)
    } else {
        let target = resolution_of(cells[0]);
        let rows = cells_of(block[at].1.values);
        let bad = leading(rows, |c: u64| is_expandable(c, target));
        if bad < rows.len() {
            Err(row_fault(rows[bad], target))
        } else {
            let reps = repetitions(rows, target, cells.to_set());
            Ok(
                Seq::new(
                    (block.len() - 1) as nat,
                    |i: int|
                        {
                            let from = if i < at {
                                block[i]
                            } else {
                                block[i + 1]
                            };
                            (
                                from.0,
                                ColVecView {
                                    datatype: from.1.datatype,
                                    values: repeated(from.1.values, reps),
                                },
                            )
                        },
                ).push(
                    (
                        "h3index"@,
                        ColVecView {
                            datatype: Datatype::U64,
                            values: plain(expanded(rows, target, cells.to_set()), u64_int()),
                        },
                    ),
                ),
            )
        }
    }
}

/// View of a set of columns, or of the error in its place.
pub open spec fn columns_or_error(r: Result<ColumnSet, Error>) -> Result<Seq<NamedColumn>, ErrorView> {
    match r {
        Ok(set) => Ok(set@),
        Err(e) => Err(e@),
    }
}

/// The set of the cells of a list.
fn cell_set(cells: &[u64]) -> (set: HashSet<u64>)
    ensures
        set@ == cells@.to_set(),
{
    let mut set: HashSet<u64> = HashSet::new();
    let mut i: usize = 0;
    while i < cells.len()
        invariant
            i <= cells.len(),
            forall|x: u64| set@.contains(x) <==> cells@.take(i as int).contains(x),
        decreases cells.len() - i,
    {
        let ghost before = set@;
        set.insert(cells[i]);
        assert forall|x: u64| set@.contains(x) <==> cells@.take(i + 1).contains(x) by {
            let now = cells@.take(i + 1);
            let prev = cells@.take(i as int);
            if now.contains(x) {
                let k = choose|k: int| 0 <= k < now.len() && now[k] == x;
                if k < i {
                    assert(prev[k] == x);
                }
            }
            if x == cells@[i as int] {
                assert(now[i as int] == x);
            } else if prev.contains(x) {
                let k = choose|k: int| 0 <= k < prev.len() && prev[k] == x;
                assert(now[k] == x);
            }
        }
        i += 1;
    }
    assert(cells@.take(cells@.len() as int) =~= cells@);
    assert(set@ =~= cells@.to_set());
    set
}

/// Appends to `out` those of `cells` that are in `wanted`; says how many.
fn push_kept(out: &mut Vec<u64>, cells: &Vec<u64>, wanted: &HashSet<u64>) -> (n: usize)
    ensures
        final(out)@ == old(out)@ + kept(cells@, wanted@),
        n == kept(cells@, wanted@).len(),
{
    let ghost before = out@;
    let mut n: usize = 0;
    let mut i: usize = 0;
    assert(cells@.take(0) =~= Seq::<u64>::empty());
    assert(out@ =~= before + kept(cells@.take(0), wanted@));
    while i < cells.len()
        invariant
            i <= cells.len(),
            n <= i,
            out@ == before + kept(cells@.take(i as int), wanted@),
            n == kept(cells@.take(i as int), wanted@).len(),
        decreases cells.len() - i,
    {
        assert(cells@.take(i + 1).drop_last() =~= cells@.take(i as int));
        assert(cells@.take(i + 1).last() == cells@[i as int]);
        if wanted.contains(&cells[i]) {
            out.push(cells[i]);
            n += 1;
            assert(out@ =~= before + kept(cells@.take(i + 1), wanted@));
        }
        i += 1;
    }
    assert(cells@.take(cells@.len() as int) =~= cells@);
    n
}

/// Expands the cells of the rows; says for each row how many cells it stands for.
fn expand_rows(rows: &Vec<u64>, target: u8, wanted: &HashSet<u64>) -> (r: Result<
    (Vec<u64>, Vec<usize>),
    Error,
>)
    requires
        target <= 15,
    ensures
        match r {
            Ok((cells, reps)) => {
                &&& leading(rows@, |c: u64| is_expandable(c, target)) == rows@.len()
                &&& cells@ == expanded(rows@, target, wanted@)
                &&& counts(reps@) == repetitions(rows@, target, wanted@)
            },
            Err(e) => {
                let bad = leading(rows@, |c: u64| is_expandable(c, target));
                bad < rows@.len() && e@ == row_fault(rows@[bad], target)
            },
        },
{
    let ghost keep = |c: u64| is_expandable(c, target);
    let mut cells: Vec<u64> = Vec::new();
    let mut reps: Vec<usize> = Vec::new();
    let mut i: usize = 0;
    assert(rows@.take(0) =~= Seq::<u64>::empty());
    while i < rows.len()
        invariant
            i <= rows.len(),
            target <= 15,
            keep == |c: u64| is_expandable(c, target),
            forall|j: int| 0 <= j < i ==> keep(#[trigger] rows@[j]),
            cells@ == expanded(rows@.take(i as int), target, wanted@),
            reps.len() == i,
            forall|j: int|
                0 <= j < i ==> #[trigger] reps@[j] == expansion(rows@[j], target, wanted@).len(),
        decreases rows.len() - i,
    {
        let c = rows[i];
        assert(rows@.take(i + 1).drop_last() =~= rows@.take(i as int));
        assert(rows@.take(i + 1).last() == c);
        if !cell_is_valid(c) {
            proof {
                lemma_leading(rows@, keep, i as int);
            }
            return Err(Error::InvalidCell(c));
        }
        let resolution = cell_resolution(c);
        if resolution > target {
            proof {
                lemma_leading(rows@, keep, i as int);
            }
            return Err(Error::InvalidResolution(resolution));
        }
        if resolution == target {
            cells.push(c);
            reps.push(1);
        } else {
            match cell_children(c, target) {
                Some(children) => {
                    let n = push_kept(&mut cells, &children, wanted);
                    reps.push(n);
                },
                None => {
                    // the cell is coarser than `target`, which is no finer than 15
                    assert(false);
                },
            }
        }
        i += 1;
    }
    proof {
        lemma_leading(rows@, keep, rows@.len() as int);
        assert(rows@.take(rows@.len() as int) =~= rows@);
        assert(counts(reps@) =~= repetitions(rows@, target, wanted@));
    }
    Ok((cells, reps))
}

/// As many cells come out of the rows as the rows stand for together.
pub proof fn lemma_expanded_len(rows: Seq<u64>, target: u8, wanted: Set<u64>)
    ensures
        expanded(rows, target, wanted).len() == total(
            repetitions(rows, target, wanted),
            rows.len() as int,
        ),
    decreases rows.len(),
{
    if rows.len() > 0 {
        let front = rows.drop_last();
        let reps = repetitions(rows, target, wanted);
        let front_reps = repetitions(front, target, wanted);
        lemma_expanded_len(front, target, wanted);
        assert forall|i: int| 0 <= i < front_reps.len() implies front_reps[i] == reps[i] by {
            assert(front[i] == rows[i]);
        }
        crate::columnset::lemma_total_of_prefix(reps, front_reps, front.len() as int);
        assert(reps[rows.len() - 1] == expansion(rows.last(), target, wanted).len());
    }
}

/// The columns of an uncompacted block: the columns of `columns` but the
/// one at `at`, each value repeated as `reps` says, and `cells` at the end.
#[verifier::loop_isolation(false)]
fn assemble(columns: &Vec<(String, ColVec)>, at: usize, reps: &Vec<usize>, cells: Vec<u64>) -> (out:
    Vec<(String, ColVec)>)
    requires
        at < columns.len(),
        forall|i: int|
            0 <= i < columns.len() ==> (#[trigger] named_columns(columns@)[i]).1.values.len()
                == reps.len(),
    ensures
        named_columns(out@) == Seq::new(
            (columns.len() - 1) as nat,
            |i: int|
                {
                    let from = if i < at {
                        named_columns(columns@)[i]
                    } else {
                        named_columns(columns@)[i + 1]
                    };
                    (
                        from.0,
                        ColVecView {
                            datatype: from.1.datatype,
                            values: repeated(from.1.values, counts(reps@)),
                        },
                    )
                },
        ).push(("h3index"@, ColVecView { datatype: Datatype::U64, values: plain(cells@, u64_int()) })),
{
    let ghost views = named_columns(columns@);
    let ghost expected = Seq::new(
        (columns.len() - 1) as nat,
        |i: int|
            {
                let from = if i < at {
                    views[i]
                } else {
                    views[i + 1]
                };
                (
                    from.0,
                    ColVecView {
                        datatype: from.1.datatype,
                        values: repeated(from.1.values, counts(reps@)),
                    },
                )
            },
    );
    let mut out: Vec<(String, ColVec)> = Vec::new();
    let mut i: usize = 0;
    while i < columns.len()
        invariant
            i <= columns.len(),
            at < columns.len(),
            views == named_columns(columns@),
            forall|i: int| 0 <= i < columns.len() ==> (#[trigger] views[i]).1.values.len() == reps.len(),
            out.len() == if i <= at {
                i as int
            } else {
                i - 1
            },
            forall|j: int|
                0 <= j < out.len() ==> (#[trigger] out@[j]).0@ == expected[j].0 && out@[j].1@
                    == expected[j].1,
        decreases columns.len() - i,
    {
        if i != at {
            assert(views[i as int].1.values.len() == reps.len());
            let repeated_column = columns[i].1.repeat(reps);
            out.push((columns[i].0.clone(), repeated_column));
        }
        i += 1;
    }
    out.push((String::from_str(crate::COL_NAME_H3INDEX), ColVec::U64(cells)));
    assert(named_columns(out@) =~= expected.push(
        ("h3index"@, ColVecView { datatype: Datatype::U64, values: plain(cells@, u64_int()) }),
    ));
    out
}

/// Rewrites the block of rows that a lookup of `cells` found, so that
/// every row stands for one of the cells: a row under an ancestor is
/// replaced by one row for each of its descendants among the cells, and
/// the values of the other columns are repeated with it.
pub fn uncompact(block: &ColumnSet, cells: &[u64]) -> (r: Result<ColumnSet, Error>)
    ensures
        columns_or_error(r) == uncompacted(block@, cells@),
{
    if cells.len() == 0 {
        return Err(Error::EmptyCells);
    }
    if !cell_is_valid(cells[0]) {
        return Err(Error::InvalidCell(cells[0]));
    }
    let target = cell_resolution(cells[0]);
    proof {
        crate::h3::lemma_resolution_range(cells@[0]);
    }
    let columns = block.columns();
    let at = match find_named(columns, crate::COL_NAME_H3INDEX) {
        Some(at) => at,
        None => {
            return Err(Error::ColumnNotFound(String::from_str(crate::COL_NAME_H3INDEX)));
        },
    };
    let rows = match &columns[at].1 {
        ColVec::U64(rows) => rows,
        _ => {
            return Err(Error::IncompatibleDatatype);
        },
    };
    let ghost views = named_columns(columns@);
    assert(rows@ =~= cells_of(views[at as int].1.values));
    let wanted = cell_set(cells);
    let (cells_out, reps) = match expand_rows(rows, target, &wanted) {
        Ok(found) => found,
        Err(e) => {
            return Err(e);
        },
    };
    assert forall|i: int| 0 <= i < columns.len() implies (#[trigger] views[i]).1.values.len()
        == reps.len() by {
        assert(views[i].1.values.len() == views[at as int].1.values.len());
        assert(counts(reps@).len() == rows@.len());
    }
    let out = assemble(columns, at, &reps, cells_out);
    proof {
        assert(named_columns(out@) =~= uncompacted(block@, cells@)->Ok_0);
        lemma_uncompacted_is_columnset(block@, cells@);
    }
    Ok(ColumnSet::from_columns(out))
}

/// What uncompaction gives is a set of columns of one length: that of the
/// expanded column of the cell index.
pub proof fn lemma_uncompacted_is_columnset(block: Seq<NamedColumn>, cells: Seq<u64>)
    requires
        is_columnset(block),
        uncompacted(block, cells) is Ok,
    ensures
        is_columnset(uncompacted(block, cells)->Ok_0),
        forall|i: int|
            0 <= i < uncompacted(block, cells)->Ok_0.len() ==> (#[trigger] uncompacted(
                block,
                cells,
            )->Ok_0[i]).1.values.len() == expanded(
                cells_of(block[column_index(block, "h3index"@)].1.values),
                resolution_of(cells[0]),
                cells.to_set(),
            ).len(),
{
    let at = column_index(block, "h3index"@);
    let target = resolution_of(cells[0]);
    let rows = cells_of(block[at].1.values);
    let wanted = cells.to_set();
    let reps = repetitions(rows, target, wanted);
    let out = uncompacted(block, cells)->Ok_0;
    let n = expanded(rows, target, wanted).len();
    lemma_expanded_len(rows, target, wanted);
    assert forall|i: int| 0 <= i < out.len() implies (#[trigger] out[i]).1.values.len() == n by {
        if i < block.len() - 1 {
            let from = if i < at {
                block[i]
            } else {
                block[i + 1]
            };
            assert(from.1.values.len() == block[at].1.values.len());
            lemma_repeated_len(from.1.values, reps);
        }
    }
    assert forall|i: int, j: int| 0 <= i < j < out.len() implies (#[trigger] out[i]).0 != (
    #[trigger] out[j]).0 by {
        let a = if i < at {
            i
        } else {
            i + 1
        };
        if j < block.len() - 1 {
            let b = if j < at {
                j
            } else {
                j + 1
            };
            assert(out[i].0 == block[a].0 && out[j].0 == block[b].0);
            assert(block[a].0 != block[b].0);
        } else {
            assert(out[i].0 == block[a].0);
            if a < at {
                assert(block[a].0 != block[at].0);
            } else {
                assert(block[at].0 != block[a].0);
            }
        }
    }
}

/// What is kept is wanted.
pub proof fn lemma_kept_is_wanted(cells: Seq<u64>, wanted: Set<u64>)
    ensures
        forall|i: int|
            0 <= i < kept(cells, wanted).len() ==> wanted.contains(#[trigger] kept(cells, wanted)[i]),
    decreases cells.len(),
{
    if cells.len() > 0 {
        lemma_kept_is_wanted(cells.drop_last(), wanted);
        let before = kept(cells.drop_last(), wanted);
        let all = kept(cells, wanted);
        assert forall|i: int| 0 <= i < all.len() implies wanted.contains(#[trigger] all[i]) by {
            if i < before.len() {
                assert(all[i] == before[i]);
            }
        }
    }
}

/// The cells that row `i` stands for begin, among all cells, where those
/// of the rows before it end.
pub proof fn lemma_expanded_run(rows: Seq<u64>, target: u8, wanted: Set<u64>, i: int, k: int)
    requires
        0 <= i < rows.len(),
        0 <= k < expansion(rows[i], target, wanted).len(),
    ensures
        0 <= total(repetitions(rows, target, wanted), i) + k < expanded(rows, target, wanted).len(),
        expanded(rows, target, wanted)[total(repetitions(rows, target, wanted), i) + k] == expansion(
            rows[i],
            target,
            wanted,
        )[k],
    decreases rows.len(),
{
    let front = rows.drop_last();
    let n = front.len() as int;
    let reps = repetitions(rows, target, wanted);
    let front_reps = repetitions(front, target, wanted);
    assert forall|j: int| 0 <= j < front_reps.len() implies front_reps[j] == reps[j] by {
        assert(front[j] == rows[j]);
    }
    lemma_expanded_len(front, target, wanted);
    crate::columnset::lemma_total_of_prefix(reps, front_reps, n);
    crate::columnset::lemma_total_rises(reps, 0, i);
    if i < n {
        assert(front[i] == rows[i]);
        lemma_expanded_run(front, target, wanted, i, k);
        crate::columnset::lemma_total_of_prefix(reps, front_reps, i);
    }
}

/// Every cell that uncompaction gives is one of the cells asked for,
/// where the rows of their own resolution are: a row of that resolution
/// is passed on as it is, and of the descendants of the other rows only
/// the cells asked for are kept.
pub proof fn lemma_uncompacted_cells_are_wanted(block: Seq<NamedColumn>, cells: Seq<u64>)
    requires
        uncompacted(block, cells) is Ok,
        forall|i: int|
            0 <= i < cells_of(block[column_index(block, "h3index"@)].1.values).len()
                && resolution_of(
                #[trigger] cells_of(block[column_index(block, "h3index"@)].1.values)[i],
            ) == resolution_of(cells[0]) ==> cells.contains(
                cells_of(block[column_index(block, "h3index"@)].1.values)[i],
            ),
    ensures
        uncompacted(block, cells)->Ok_0.last().0 == "h3index"@,
        forall|i: int|
            0 <= i < uncompacted(block, cells)->Ok_0.last().1.values.len() ==> cells.contains(
                #[trigger] cells_of(uncompacted(block, cells)->Ok_0.last().1.values)[i],
            ),
{
    let at = column_index(block, "h3index"@);
    let target = resolution_of(cells[0]);
    let rows = cells_of(block[at].1.values);
    let wanted = cells.to_set();
    let out = expanded(rows, target, wanted);
    lemma_expanded_is_wanted(rows, target, wanted);
    assert(cells_of(plain(out, u64_int())) =~= out);
}

/// Every cell that the rows stand for is wanted, where the rows of the
/// resolution `target` are.
pub proof fn lemma_expanded_is_wanted(rows: Seq<u64>, target: u8, wanted: Set<u64>)
    requires
        forall|i: int|
            0 <= i < rows.len() && resolution_of(#[trigger] rows[i]) == target ==> wanted.contains(
                rows[i],
            ),
    ensures
        forall|i: int|
            0 <= i < expanded(rows, target, wanted).len() ==> wanted.contains(
                #[trigger] expanded(rows, target, wanted)[i],
            ),
    decreases rows.len(),
{
    if rows.len() > 0 {
        let front = rows.drop_last();
        assert forall|i: int| 0 <= i < front.len() && resolution_of(#[trigger] front[i])
            == target implies wanted.contains(front[i]) by {
            assert(front[i] == rows[i]);
        }
        lemma_expanded_is_wanted(front, target, wanted);
        lemma_kept_is_wanted(children_of(rows.last(), target), wanted);
        let before = expanded(front, target, wanted);
        let more = expansion(rows.last(), target, wanted);
        let all = expanded(rows, target, wanted);
        assert(rows.last() == rows[rows.len() - 1]);
        assert forall|i: int| 0 <= i < all.len() implies wanted.contains(#[trigger] all[i]) by {
            if i < before.len() {
                assert(all[i] == before[i]);
            } else {
                assert(all[i] == more[i - before.len()]);
            }
        }
    }
}

/// The rows of an uncompacted block are true to the rows they come from:
/// in the run of row `i`, at its place `k`, every column beside the cell
/// index holds the value that it held in row `i`, and the cell index holds
/// the cell at place `k` of those that row `i` stands for.
pub proof fn lemma_uncompacted_rows(block: Seq<NamedColumn>, cells: Seq<u64>, j: int, i: int, k: int)
    requires
        is_columnset(block),
        uncompacted(block, cells) is Ok,
        0 <= j < block.len() - 1,
        0 <= i < rows_of(block),
        0 <= k < expansion(
            cells_of(block[column_index(block, "h3index"@)].1.values)[i],
            resolution_of(cells[0]),
            cells.to_set(),
        ).len(),
    ensures
        ({
            let at = column_index(block, "h3index"@);
            let rows = cells_of(block[at].1.values);
            let reps = repetitions(rows, resolution_of(cells[0]), cells.to_set());
            let row = total(reps, i) + k;
            let out = uncompacted(block, cells)->Ok_0;
            let from = if j < at {
                block[j]
            } else {
                block[j + 1]
            };
            &&& 0 <= row < rows_of(out)
            &&& out[j].0 == from.0
            &&& out[j].1.values[row] == from.1.values[i]
            &&& cells_of(out.last().1.values)[row] == expansion(
                rows[i],
                resolution_of(cells[0]),
                cells.to_set(),
            )[k]
        }),
{
    let at = column_index(block, "h3index"@);
    let target = resolution_of(cells[0]);
    let wanted = cells.to_set();
    let rows = cells_of(block[at].1.values);
    let reps = repetitions(rows, target, wanted);
    let out = uncompacted(block, cells)->Ok_0;
    let from = if j < at {
        block[j]
    } else {
        block[j + 1]
    };
    assert(block[0].1.values.len() == block[at].1.values.len());
    assert(from.1.values.len() == block[at].1.values.len());
    lemma_uncompacted_is_columnset(block, cells);
    crate::columnset::lemma_repeated_run(from.1.values, reps, i, k);
    crate::columnset::lemma_repeated_len(from.1.values, reps);
    lemma_expanded_run(rows, target, wanted, i, k);
    lemma_expanded_len(rows, target, wanted);
    assert(cells_of(plain(expanded(rows, target, wanted), u64_int())) =~= expanded(
        rows,
        target,
        wanted,
    ));
    assert(out[0].1.values.len() == expanded(rows, target, wanted).len());
}


} // verus!
