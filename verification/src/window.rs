//! The sliding window: an area is walked through one coarse cell at a
//! time, and for each of these window cells the cells of the wanted
//! resolution below it are looked up.

use vstd::prelude::*;
use crate::error::{Error, ErrorView};
use crate::h3::{
    cell_children, cell_grid_disk, cell_is_valid, children_of, grid_disk_of, is_valid_cell,
    resolution_of,
};
use crate::order::{leading, lemma_leading};
use crate::cells::{distinct, distinct_values};
use crate::planner::{plan_view, planned};
use crate::tableset::{has_table_at, TableSet, TableSetQuery, TableSetQueryView, TableSetView};

verus! {

/// 7 to the power of `k`: the greatest number of descendants that a cell
/// has `k` resolutions below its own.
pub open spec fn pow7(k: nat) -> nat
    decreases k,
{
    if k == 0 {
        1
    } else {
        7 * pow7((k - 1) as nat)
    }
}

/// Whether windows of resolution `r` can be used for cells of resolution
/// `target`: the tableset has a table at `r`, `r` is not finer than
/// `target`, and a window holds `window_max_size` cells at most.
pub open spec fn is_window_resolution(ts: TableSetView, target: u8, window_max_size: u32, r: u8) -> bool {
    r <= target && has_table_at(ts, r) && pow7((target - r) as nat) <= window_max_size
}

/// The powers of 7 rise.
pub proof fn lemma_pow7_rises(a: nat, b: nat)
    requires
        a <= b,
    ensures
        1 <= pow7(a) <= pow7(b),
    decreases b,
{
    if a < b {
        lemma_pow7_rises(a, (b - 1) as nat);
    } else if a > 0 {
        lemma_pow7_rises((a - 1) as nat, (a - 1) as nat);
    }
}

/// Whether a cell has `max` descendants at most `k` resolutions below its own.
pub fn fits_window(k: u8, max: u32) -> (fits: bool)
    ensures
        fits == (pow7(k as nat) <= max),
{
    let mut size: u64 = 1;
    let mut i: u8 = 0;
    if max == 0 {
        proof {
            lemma_pow7_rises(k as nat, k as nat);
        }
        return false;
    }
    while i < k
        invariant
            i <= k,
            size == pow7(i as nat),
            size <= max,
        decreases k - i,
    {
        size = size * 7;
        i += 1;
        if size > max as u64 {
            proof {
                lemma_pow7_rises(i as nat, k as nat);
            }
            return false;
        }
    }
    true
}

/// The resolution of the windows to walk through for cells of resolution
/// `target_h3_resolution`: the coarsest resolution of the tableset at
/// which a window holds `window_max_size` cells at most; or, where the
/// tableset has none such, the resolution of the cells itself.
pub fn window_index_resolution(
    table_set: &TableSet,
    target_h3_resolution: u8,
    window_max_size: u32,
) -> (r: u8)
    ensures
        r <= target_h3_resolution,
        forall|q: u8|
            is_window_resolution(table_set@, target_h3_resolution, window_max_size, q) ==> r <= q,
        is_window_resolution(table_set@, target_h3_resolution, window_max_size, r) || (r
            == target_h3_resolution && forall|q: u8|
            !is_window_resolution(table_set@, target_h3_resolution, window_max_size, q)),
{
    let mut r: u8 = 0;
    while r < target_h3_resolution
        invariant
            r <= target_h3_resolution,
            forall|q: u8|
                q < r ==> !is_window_resolution(
                    table_set@,
                    target_h3_resolution,
                    window_max_size,
                    q,
                ),
        decreases target_h3_resolution - r,
    {
        if (table_set.base_tables.contains_key(&r) || table_set.compacted_tables.contains_key(&r))
            && fits_window(target_h3_resolution - r, window_max_size) {
            return r;
        }
        r += 1;
    }
    r
}

/// The cells of a sliding window and the place it has come to.
pub struct SlidingH3Window {
    target_h3_resolution: u8,
    window_indexes: Vec<u64>,
    iter_pos: usize,
}

/// Mathematical value of a [`SlidingH3Window`].
pub struct SlidingH3WindowView {
    pub target_h3_resolution: u8,
    pub window_indexes: Seq<u64>,
    pub iter_pos: nat,
}

impl View for SlidingH3Window {
    type V = SlidingH3WindowView;

    closed spec fn view(&self) -> SlidingH3WindowView {
        SlidingH3WindowView {
            target_h3_resolution: self.target_h3_resolution,
            window_indexes: self.window_indexes@,
            iter_pos: self.iter_pos as nat,
        }
    }
}

impl SlidingH3Window {
    #[verifier::type_invariant]
    pub closed spec fn within(&self) -> bool {
        self.iter_pos <= self.window_indexes.len()
    }

    /// A window over `window_indexes`, at its first cell.
    pub fn new(target_h3_resolution: u8, window_indexes: Vec<u64>) -> (w: Self)
        ensures
            w@ == (SlidingH3WindowView {
                target_h3_resolution,
                window_indexes: window_indexes@,
                iter_pos: 0,
            }),
    {
        SlidingH3Window { target_h3_resolution, window_indexes, iter_pos: 0 }
    }

    /// The resolution of the cells to look up.
    pub fn target_h3_resolution(&self) -> (r: u8)
        ensures
            r == self@.target_h3_resolution,
    {
        self.target_h3_resolution
    }

    /// The number of window cells that are still to come.
    pub fn remaining(&self) -> (n: usize)
        ensures
            self@.iter_pos <= self@.window_indexes.len(),
            n == self@.window_indexes.len() - self@.iter_pos,
    {
        proof {
            use_type_invariant(self);
        }
        self.window_indexes.len() - self.iter_pos
    }

    /// The next window cell, or `None` behind the last one.
    pub fn next_window(&mut self) -> (cell: Option<u64>)
        ensures
            old(self)@.iter_pos <= old(self)@.window_indexes.len(),
            final(self)@.target_h3_resolution == old(self)@.target_h3_resolution,
            final(self)@.window_indexes == old(self)@.window_indexes,
            old(self)@.iter_pos < old(self)@.window_indexes.len() ==> cell == Some(
                old(self)@.window_indexes[old(self)@.iter_pos as int],
            ) && final(self)@.iter_pos == old(self)@.iter_pos + 1,
            old(self)@.iter_pos == old(self)@.window_indexes.len() ==> cell.is_none()
                && final(self)@.iter_pos == old(self)@.iter_pos,
    {
        proof {
            use_type_invariant(&*self);
        }
        if self.iter_pos < self.window_indexes.len() {
            let cell = self.window_indexes[self.iter_pos];
            self.iter_pos = self.iter_pos + 1;
            Some(cell)
        } else {
            None
        }
    }
}

/// A cell with the cells around it.
pub type Neighbourhood = (u64, Seq<u64>);

/// Each cell of `around` followed by the cells around it.
pub open spec fn with_neighbours(around: Seq<Neighbourhood>) -> Seq<u64>
    decreases around.len(),
{
    if around.len() == 0 {
        Seq::empty()
    } else {
        with_neighbours(around.drop_last()) + seq![around.last().0] + around.last().1
    }
}

/// Each of `cells` with the cells within grid distance 1 of it.
pub open spec fn disks_of(cells: Seq<u64>) -> Seq<Neighbourhood> {
    Seq::new(cells.len(), |i: int| (cells[i], grid_disk_of(cells[i], 1)->0))
}

/// Whether `c` has neighbours that can be listed.
pub open spec fn has_neighbours(c: u64) -> bool {
    grid_disk_of(c, 1) is Some
}

/// The neighbourhoods of a list, each by its value.
pub open spec fn neighbourhoods(around: Seq<(u64, Vec<u64>)>) -> Seq<Neighbourhood> {
    Seq::new(around.len(), |i: int| (around[i].0, around[i].1@))
}

/// The cells of a window walk: each cell of `around` and the cells listed
/// around it, every cell once, in the order of first occurrence.
pub fn merge_window_cells(around: &Vec<(u64, Vec<u64>)>) -> (out: Vec<u64>)
    ensures
        out@ == distinct(with_neighbours(neighbourhoods(around@))),
{
    let mut all: Vec<u64> = Vec::new();
    let ghost views = neighbourhoods(around@);
    let mut i: usize = 0;
    assert(with_neighbours(views.take(0)) =~= Seq::<u64>::empty());
    while i < around.len()
        invariant
            i <= around.len(),
            views == neighbourhoods(around@),
            all@ == with_neighbours(views.take(i as int)),
        decreases around.len() - i,
    {
        assert(views.take(i + 1).drop_last() =~= views.take(i as int));
        assert(views.take(i + 1).last() == views[i as int]);
        let ghost before = all@;
        all.push(around[i].0);
        let disk = &around[i].1;
        let mut k: usize = 0;
        while k < disk.len()
            invariant
                k <= disk.len(),
                all@ == before + seq![around@[i as int].0] + disk@.take(k as int),
            decreases disk.len() - k,
        {
            all.push(disk[k]);
            assert(all@ =~= before + seq![around@[i as int].0] + disk@.take(k + 1));
            k += 1;
        }
        assert(disk@.take(disk@.len() as int) =~= disk@);
        i += 1;
    }
    assert(views.take(around@.len() as int) =~= views);
    distinct_values(&all)
}

/// The candidates for the window cells of an area: the cells `filled`
/// that lie in it, and the neighbours of each, every cell once. The first
/// cell whose neighbours cannot be listed is reported as no cell.
pub fn window_candidates(filled: &[u64]) -> (r: Result<Vec<u64>, Error>)
    ensures
        ({
            let bad = leading(filled@, |c: u64| has_neighbours(c));
            if bad < filled@.len() {
                r is Err && r->Err_0@ == ErrorView::InvalidCell(filled@[bad])
            } else {
                r is Ok && r->Ok_0@ == distinct(with_neighbours(disks_of(filled@)))
            }
        }),
{
    let ghost keep = |c: u64| has_neighbours(c);
    let mut around: Vec<(u64, Vec<u64>)> = Vec::new();
    let mut i: usize = 0;
    while i < filled.len()
        invariant
            i <= filled.len(),
            around.len() == i,
            keep == |c: u64| has_neighbours(c),
            forall|j: int| 0 <= j < i ==> keep(#[trigger] filled@[j]),
            forall|j: int|
                0 <= j < i ==> (#[trigger] around@[j]).0 == filled@[j] && around@[j].1@
                    == grid_disk_of(filled@[j], 1)->0,
        decreases filled.len() - i,
    {
        match cell_grid_disk(filled[i], 1) {
            Some(disk) => around.push((filled[i], disk)),
            None => {
                proof {
                    lemma_leading(filled@, keep, i as int);
                }
                return Err(Error::InvalidCell(filled[i]));
            },
        }
        assert(keep(filled@[i as int]));
        i += 1;
    }
    proof {
        lemma_leading(filled@, keep, filled@.len() as int);
    }
    assert(neighbourhoods(around@) =~= disks_of(filled@));
    Ok(merge_window_cells(&around))
}

// ---------------------------------------------------------------------------
// Walking through the windows

/// The template of the query that probes a window, made from an
/// optional template of the caller's.
pub open spec fn probe_template(template: Option<Seq<char>>) -> Seq<char> {
    match template {
        Some(t) => t + " limit 1"@,
        None => "select h3index from <[table]> where h3index in <[h3indexes]> limit 1"@,
    }
}

/// What probing the window cell `w` asks the database: whether any table
/// of `ts` that can hold `w` or one of its ancestors has a row for it.
pub open spec fn probe_of(ts: TableSetView, w: u64, template: Option<Seq<char>>) -> Result<
    Seq<char>,
    ErrorView,
> {
    if !is_valid_cell(w) {
        Err(ErrorView::InvalidCell(w))
    } else {
        planned(ts, seq![w], TableSetQueryView::TemplatedSelect(probe_template(template)))
    }
}

/// The query that tells whether `table_set` has any row for the window
/// cell `window_cell` or one of its ancestors: where it returns no row,
/// the window can be skipped.
pub fn prefetch_query(table_set: &TableSet, window_cell: u64, template: Option<&str>) -> (r: Result<
    String,
    Error,
>)
    ensures
        plan_view(r) == probe_of(
            table_set@,
            window_cell,
            match template {
                Some(t) => Some(t@),
                None => None,
            },
        ),
{
    if !cell_is_valid(window_cell) {
        return Err(Error::InvalidCell(window_cell));
    }
    let mut text = String::new();
    match template {
        Some(t) => {
            text.append(t);
            text.append(" limit 1");
        },
        None => {
            text.append("select h3index from <[table]> where h3index in <[h3indexes]> limit 1");
        },
    }
    assert(text@ =~= probe_template(
        match template {
            Some(t) => Some(t@),
            None => None,
        },
    ));
    let query = TableSetQuery::TemplatedSelect(text);
    let mut cells: Vec<u64> = Vec::new();
    cells.push(window_cell);
    assert(cells@ =~= seq![window_cell]);
    table_set.build_select_query(cells.as_slice(), &query)
}

/// What the walk does next.
#[derive(Debug, PartialEq, Eq)]
pub enum WindowStep {
    /// Ask the database whether the query returns a row, and report the
    /// answer with [`after_probe`].
    Probe { window_cell: u64, query: String },
    /// All windows have been walked through.
    Done,
}

/// What to do with a window that has been probed.
#[derive(Debug, PartialEq, Eq)]
pub enum WindowFetch {
    /// The window holds no data: go on with the next one.
    Skip,
    /// Look these cells up: the descendants of the window cell at the
    /// resolution of the walk.
    Fetch { window_cell: u64, cells: Vec<u64> },
}

/// Whether `step` is to probe the window of cell `w` with `query`.
pub open spec fn is_probe(step: WindowStep, w: u64, query: Seq<char>) -> bool {
    match step {
        WindowStep::Probe { window_cell, query: q } => window_cell == w && q@ == query,
        WindowStep::Done => false,
    }
}

/// Whether `fetch` is to look `cells` up for the window of cell `w`.
pub open spec fn is_fetch(fetch: WindowFetch, w: u64, cells: Seq<u64>) -> bool {
    match fetch {
        WindowFetch::Fetch { window_cell, cells: c } => window_cell == w && c@ == cells,
        WindowFetch::Skip => false,
    }
}

/// Moves to the next window, and says with which query to probe it.
pub fn next_probe(window: &mut SlidingH3Window, table_set: &TableSet, template: Option<&str>) -> (r:
    Result<WindowStep, Error>)
    ensures
        final(window)@.target_h3_resolution == old(window)@.target_h3_resolution,
        final(window)@.window_indexes == old(window)@.window_indexes,
        old(window)@.iter_pos <= old(window)@.window_indexes.len(),
        old(window)@.iter_pos == old(window)@.window_indexes.len() ==> r is Ok && r->Ok_0 is Done
            && final(window)@.iter_pos == old(window)@.iter_pos,
        old(window)@.iter_pos < old(window)@.window_indexes.len() ==> {
            let w = old(window)@.window_indexes[old(window)@.iter_pos as int];
            let probe = probe_of(
                table_set@,
                w,
                match template {
                    Some(t) => Some(t@),
                    None => None,
                },
            );
            &&& final(window)@.iter_pos == old(window)@.iter_pos + 1
            &&& match probe {
                Ok(query) => r is Ok && is_probe(r->Ok_0, w, query),
                Err(e) => r is Err && r->Err_0@ == e,
            }
        },
{
    match window.next_window() {
        None => Ok(WindowStep::Done),
        Some(window_cell) => match prefetch_query(table_set, window_cell, template) {
            Ok(query) => Ok(WindowStep::Probe { window_cell, query }),
            Err(e) => Err(e),
        },
    }
}

/// Decides what to do with the window of `window_cell` once it has been
/// probed: a window without rows is skipped; of any other the
/// descendants at the resolution `target` are to be looked up.
pub fn after_probe(window_cell: u64, target: u8, has_rows: bool) -> (r: Result<WindowFetch, Error>)
    ensures
        !has_rows ==> r is Ok && r->Ok_0 is Skip,
        has_rows && resolution_of(window_cell) <= target <= 15 ==> r is Ok && is_fetch(
            r->Ok_0,
            window_cell,
            children_of(window_cell, target),
        ),
        has_rows && !(resolution_of(window_cell) <= target <= 15) ==> r is Err && r->Err_0@
            == ErrorView::InvalidResolution(target),
{
    if !has_rows {
        return Ok(WindowFetch::Skip);
    }
    match cell_children(window_cell, target) {
        Some(cells) => Ok(WindowFetch::Fetch { window_cell, cells }),
        None => Err(Error::InvalidResolution(target)),
    }
}

} // verus!
