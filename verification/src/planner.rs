//! The query planner: one lookup of cells in a tableset becomes a union of
//! selects, one for each resolution whose table can hold the cells or
//! their ancestors.

use vstd::prelude::*;
use crate::error::{Error, ErrorView};
use crate::h3::{cell_parent, cell_resolution, lemma_resolution_range, parent_of, resolution_of};
use crate::cells::{distinct, distinct_values};
use crate::table::{lemma_name_is_words, table_name, Table, TableSpec, TableSpecView, TableView};
use crate::tableset::{
    cells_placeholder, is_tableset, missing_placeholder, table_placeholder, TableSet,
    TableSetQuery, TableSetQueryView, TableSetView,
};
use crate::text::{
    all_chars, all_word_chars, contains_text, decimal, has_prefix_at, is_digit, is_word_char,
    join, joined, lemma_decimal_digits, lemma_joined_chars, lemma_joined_excludes,
    lemma_replaced_excludes, occurs_at, push_char, push_chars, push_decimal, replace_all,
    replaced, texts, to_chars,
};

verus! {

/// The ancestors of `cells` at resolution `r`, each once.
pub open spec fn ancestors(cells: Seq<u64>, r: u8) -> Seq<u64> {
    distinct(cells.map_values(|c: u64| parent_of(c, r)))
}

/// The list `[v1,v2,…]` of `cells` in decimal.
pub open spec fn cell_list(cells: Seq<u64>) -> Seq<char> {
    seq!['['] + joined(cells.map_values(|c: u64| decimal(c as nat)), seq![',']) + seq![']']
}

/// Whether a column is one of the reserved ones, whose names begin with
/// the name of the cell index column.
pub open spec fn is_reserved(name: Seq<char>) -> bool {
    "h3index"@.is_prefix_of(name)
}

/// The names of the columns that a generated query selects beside the cell
/// index: all but the reserved ones, in the order of the catalog.
pub open spec fn selectable(columns: Seq<(Seq<char>, Seq<char>)>) -> Seq<Seq<char>>
    decreases columns.len(),
{
    if columns.len() == 0 {
        Seq::empty()
    } else if is_reserved(columns.last().0) {
        selectable(columns.drop_last())
    } else {
        selectable(columns.drop_last()).push(columns.last().0)
    }
}

/// The table that is read at resolution `r` for cells of resolution
/// `target`: at the cells' own resolution the base table, or else the
/// compacted one; at a coarser resolution the compacted table.
pub open spec fn chosen_table(ts: TableSetView, r: u8, target: u8) -> Option<TableSpecView> {
    if r == target && ts.base_tables.contains_key(r) {
        Some(ts.base_tables[r])
    } else if ts.compacted_tables.contains_key(r) {
        Some(ts.compacted_tables[r])
    } else {
        None
    }
}

/// The select that reads the cells `wanted` from the table named `table`.
pub open spec fn subquery(
    columns: Seq<(Seq<char>, Seq<char>)>,
    query: TableSetQueryView,
    table: Seq<char>,
    wanted: Seq<u64>,
) -> Seq<char> {
    match query {
        TableSetQueryView::AutoGenerated => "select h3index, "@ + joined(
            selectable(columns),
            ", "@,
        ) + " from "@ + table + " where h3index in "@ + cell_list(wanted),
        TableSetQueryView::TemplatedSelect(template) => replaced(
            replaced(template, table_placeholder(), table),
            cells_placeholder(),
            cell_list(wanted),
        ),
    }
}

/// The selects for the resolutions below `n`, by rising resolution.
pub open spec fn subqueries(
    ts: TableSetView,
    cells: Seq<u64>,
    query: TableSetQueryView,
    target: u8,
    n: int,
) -> Seq<Seq<char>>
    decreases n,
{
    if n <= 0 {
        Seq::empty()
    } else {
        let before = subqueries(ts, cells, query, target, n - 1);
        let r = (n - 1) as u8;
        match chosen_table(ts, r, target) {
            Some(spec) => before.push(
                subquery(
                    ts.columns,
                    query,
                    table_name(TableView { basename: ts.basename, spec }),
                    ancestors(cells, r),
                ),
            ),
            None => before,
        }
    }
}

/// What planning the lookup of `cells` in `ts` gives: the error for a
/// template without a placeholder, for no cells, for cells of several
/// resolutions, or for a tableset without any table to read; else the
/// selects, joined by ` union all `.
pub open spec fn planned(ts: TableSetView, cells: Seq<u64>, query: TableSetQueryView) -> Result<
    Seq<char>,
    ErrorView,
> {
    if missing_placeholder(query) is Some {
        Err(ErrorView::MissingQueryPlaceholder(missing_placeholder(query)->0))
    } else if cells.len() == 0 {
        Err(ErrorView::EmptyCells)
    } else {
        let target = resolution_of(cells[0]);
        if exists|i: int| 0 <= i < cells.len() && resolution_of(#[trigger] cells[i]) != target {
            Err(ErrorView::MixedResolutions)
        } else if !exists|r: u8| r <= target && #[trigger] chosen_table(ts, r, target) is Some {
            Err(ErrorView::NoQueryableTables)
        } else {
            Ok(joined(subqueries(ts, cells, query, target, target + 1), " union all "@))
        }
    }
}

/// View of a planning result.
pub open spec fn plan_view(r: Result<String, Error>) -> Result<Seq<char>, ErrorView> {
    match r {
        Ok(s) => Ok(s@),
        Err(e) => Err(e@),
    }
}

/// The ancestors of `cells` at resolution `r`, each once.
fn ancestors_of(cells: &[u64], r: u8) -> (out: Vec<u64>)
    requires
        forall|i: int| 0 <= i < cells@.len() ==> r <= resolution_of(#[trigger] cells@[i]),
    ensures
        out@ == ancestors(cells@, r),
{
    let mut parents: Vec<u64> = Vec::new();
    let mut i: usize = 0;
    while i < cells.len()
        invariant
            i <= cells.len(),
            forall|i: int| 0 <= i < cells@.len() ==> r <= resolution_of(#[trigger] cells@[i]),
            parents.len() == i,
            forall|j: int| 0 <= j < i ==> #[trigger] parents@[j] == parent_of(cells@[j], r),
        decreases cells.len() - i,
    {
        match cell_parent(cells[i], r) {
            Some(p) => parents.push(p),
            None => {
                // no cell is coarser than `r`
                assert(false);
            },
        }
        i += 1;
    }
    assert(parents@ =~= cells@.map_values(|c: u64| parent_of(c, r)));
    distinct_values(&parents)
}

/// Writes the list `[v1,v2,…]` of `cells` in decimal.
fn write_cell_list(cells: &Vec<u64>) -> (out: String)
    ensures
        out@ == cell_list(cells@),
{
    let mut numbers: Vec<String> = Vec::new();
    let mut i: usize = 0;
    while i < cells.len()
        invariant
            i <= cells.len(),
            texts(numbers@) == cells@.take(i as int).map_values(|c: u64| decimal(c as nat)),
        decreases cells.len() - i,
    {
        let mut number = String::new();
        push_decimal(&mut number, cells[i]);
        let ghost before = numbers@;
        numbers.push(number);
        assert(number@ =~= decimal(cells@[i as int] as nat));
        assert(texts(numbers@) =~= texts(before).push(number@));
        assert(cells@.take(i + 1).map_values(|c: u64| decimal(c as nat)) =~= cells@.take(
            i as int,
        ).map_values(|c: u64| decimal(c as nat)).push(decimal(cells@[i as int] as nat)));
        i += 1;
    }
    assert(cells@.take(cells@.len() as int) =~= cells@);
    let list = join(&numbers, ",");
    proof {
        reveal_strlit(",");
        assert(","@ =~= seq![',']);
    }
    let mut out = String::new();
    push_char(&mut out, '[');
    out.append(list.as_str());
    push_char(&mut out, ']');
    assert(out@ =~= cell_list(cells@));
    out
}

/// The names of the columns that a generated query selects beside the cell index.
fn selectable_columns(columns: &Vec<(String, String)>) -> (names: Vec<String>)
    ensures
        texts(names@) == selectable(crate::tableset::column_views(columns@)),
{
    let mut names: Vec<String> = Vec::new();
    let ghost views = crate::tableset::column_views(columns@);
    let reserved = to_chars(crate::COL_NAME_H3INDEX);
    let mut i: usize = 0;
    assert(texts(names@) =~= selectable(views.take(0)));
    while i < columns.len()
        invariant
            i <= columns.len(),
            views == crate::tableset::column_views(columns@),
            reserved@ == "h3index"@,
            texts(names@) == selectable(views.take(i as int)),
        decreases columns.len() - i,
    {
        assert(views.take(i + 1).drop_last() =~= views.take(i as int));
        assert(views.take(i + 1).last() == views[i as int]);
        let name = to_chars(columns[i].0.as_str());
        assert(name@.skip(0) =~= name@);
        if !has_prefix_at(&name, 0, &reserved) {
            let ghost before = names@;
            names.push(columns[i].0.clone());
            assert(texts(names@) =~= texts(before).push(views[i as int].0));
        }
        i += 1;
    }
    assert(views.take(columns@.len() as int) =~= views);
    names
}

/// Writes the select that reads the cells of `list` from `table`.
fn write_subquery(
    columns: &Vec<(String, String)>,
    query: &TableSetQuery,
    table: &String,
    list: &String,
    Ghost(wanted): Ghost<Seq<u64>>,
) -> (out: String)
    requires
        list@ == cell_list(wanted),
    ensures
        out@ == subquery(crate::tableset::column_views(columns@), query@, table@, wanted),
{
    match query {
        TableSetQuery::AutoGenerated => {
            let names = selectable_columns(columns);
            let selected = join(&names, ", ");
            let mut out = String::new();
            out.append("select h3index, ");
            out.append(selected.as_str());
            out.append(" from ");
            out.append(table.as_str());
            out.append(" where h3index in ");
            out.append(list.as_str());
            assert(out@ =~= subquery(
                crate::tableset::column_views(columns@),
                query@,
                table@,
                wanted,
            ));
            out
        },
        TableSetQuery::TemplatedSelect(template) => {
            let text = to_chars(template.as_str());
            let table_mark = to_chars("<[table]>");
            let cells_mark = to_chars("<[h3indexes]>");
            proof {
                reveal_strlit("<[table]>");
                reveal_strlit("<[h3indexes]>");
            }
            let with_table = replace_all(&text, &table_mark, &to_chars(table.as_str()));
            let with_cells = replace_all(&with_table, &cells_mark, &to_chars(list.as_str()));
            let mut out = String::new();
            push_chars(&mut out, &with_cells, 0, with_cells.len());
            assert(with_cells@.subrange(0, with_cells@.len() as int) =~= with_cells@);
            assert(out@ =~= with_cells@);
            out
        },
    }
}

impl TableSet {
    /// The table to read at resolution `r` for cells of resolution `target`.
    fn choose_table(&self, r: u8, target: u8) -> (spec: Option<&TableSpec>)
        ensures
            match spec {
                Some(s) => chosen_table(self@, r, target) == Some(s@),
                None => chosen_table(self@, r, target) is None,
            },
    {
        if r == target {
            match self.base_tables.get(&r) {
                Some(s) => {
                    return Some(s);
                },
                None => {},
            }
        }
        self.compacted_tables.get(&r)
    }

    /// Builds the select statement that looks `cells` up in this tableset:
    /// in the table of their own resolution, and in the compacted tables of
    /// all coarser resolutions, where their ancestors may stand.
    pub fn build_select_query(&self, cells: &[u64], query: &TableSetQuery) -> (r: Result<
        String,
        Error,
    >)
        ensures
            plan_view(r) == planned(self@, cells@, query@),
    {
        match query.validate() {
            Err(e) => {
                return Err(e);
            },
            Ok(_) => {},
        }
        if cells.len() == 0 {
            return Err(Error::EmptyCells);
        }
        let target = cell_resolution(cells[0]);
        proof {
            lemma_resolution_range(cells@[0]);
        }
        let mut i: usize = 0;
        while i < cells.len()
            invariant
                i <= cells.len(),
                cells@.len() > 0,
                missing_placeholder(query@) is None,
                target == resolution_of(cells@[0]),
                forall|j: int| 0 <= j < i ==> resolution_of(#[trigger] cells@[j]) == target,
            decreases cells.len() - i,
        {
            if cell_resolution(cells[i]) != target {
                return Err(Error::MixedResolutions);
            }
            i += 1;
        }
        let mut parts: Vec<String> = Vec::new();
        let mut queryable = false;
        let mut r: u8 = 0;
        assert(texts(parts@) =~= subqueries(self@, cells@, query@, target, 0));
        while r <= target
            invariant
                r <= target + 1,
                target <= 15,
                forall|j: int| 0 <= j < cells@.len() ==> resolution_of(#[trigger] cells@[j]) == target,
                texts(parts@) == subqueries(self@, cells@, query@, target, r as int),
                queryable == exists|q: u8| q < r && #[trigger] chosen_table(self@, q, target) is Some,
            decreases target + 1 - r,
        {
            let ghost before = parts@;
            match self.choose_table(r, target) {
                Some(spec) => {
                    queryable = true;
                    let table = Table { basename: self.basename.clone(), spec: spec.clone() };
                    let name = table.to_table_name();
                    let wanted = ancestors_of(cells, r);
                    let list = write_cell_list(&wanted);
                    let part = write_subquery(&self.columns, query, &name, &list, Ghost(wanted@));
                    parts.push(part);
                    assert(texts(parts@) =~= texts(before).push(part@));
                },
                None => {},
            }
            r += 1;
        }
        if !queryable {
            return Err(Error::NoQueryableTables);
        }
        Ok(join(&parts, " union all "))
    }
}

// ---------------------------------------------------------------------------
// No placeholder is left behind

/// Whether neither placeholder stands in `s`.
pub open spec fn without_placeholders(s: Seq<char>) -> bool {
    !contains_text(s, table_placeholder()) && !contains_text(s, cells_placeholder())
}

/// The characters of a cell list.
pub open spec fn is_list_char(c: char) -> bool {
    is_digit(c) || c == ',' || c == '[' || c == ']'
}

/// A cell list is made of brackets, digits and commas; it begins with
/// `[`, and a digit or `]` follows.
pub proof fn lemma_cell_list_chars(cells: Seq<u64>)
    ensures
        cell_list(cells).len() >= 2,
        cell_list(cells)[0] == '[',
        is_digit(cell_list(cells)[1]) || cell_list(cells)[1] == ']',
        forall|i: int| 0 <= i < cell_list(cells).len() ==> is_list_char(#[trigger] cell_list(cells)[i]),
{
    let numbers = cells.map_values(|c: u64| decimal(c as nat));
    let allowed = |c: char| is_list_char(c);
    assert forall|i: int| 0 <= i < numbers.len() implies all_chars(#[trigger] numbers[i], allowed) by {
        lemma_decimal_digits(cells[i] as nat);
    }
    assert(all_chars(seq![','], allowed));
    lemma_joined_chars(numbers, seq![','], allowed);
    let inner = joined(numbers, seq![',']);
    let list = cell_list(cells);
    assert(list =~= seq!['['] + inner + seq![']']);
    assert forall|i: int| 0 <= i < list.len() implies is_list_char(#[trigger] list[i]) by {
        if 1 <= i < 1 + inner.len() {
            assert(list[i] == inner[i - 1]);
            assert(allowed(inner[i - 1]));
        }
    }
    if cells.len() > 0 {
        lemma_decimal_digits(cells[0] as nat);
        assert(inner[0] == numbers[0][0]);
        assert(list[1] == inner[0]);
    }
}

/// Filling a template with a table name made of word characters and with
/// a cell list leaves neither placeholder behind.
pub proof fn lemma_filled_without_placeholders(
    template: Seq<char>,
    table: Seq<char>,
    b: int,
    wanted: Seq<u64>,
)
    requires
        all_word_chars(table),
        0 <= b < table.len(),
        table[b] == '_',
    ensures
        without_placeholders(
            subquery(Seq::empty(), TableSetQueryView::TemplatedSelect(template), table, wanted),
        ),
{
    reveal_strlit("<[table]>");
    reveal_strlit("<[h3indexes]>");
    let table_mark = table_placeholder();
    let cells_mark = cells_placeholder();
    let list = cell_list(wanted);
    lemma_cell_list_chars(wanted);
    assert(!table.contains('<') && !table.contains('>')) by {
        if table.contains('<') {
            let i = choose|i: int| 0 <= i < table.len() && table[i] == '<';
            assert(is_word_char(table[i]));
        }
        if table.contains('>') {
            let i = choose|i: int| 0 <= i < table.len() && table[i] == '>';
            assert(is_word_char(table[i]));
        }
    }
    assert(!list.contains('<') && !list.contains('>')) by {
        if list.contains('<') {
            let i = choose|i: int| 0 <= i < list.len() && list[i] == '<';
            assert(is_list_char(list[i]));
        }
        if list.contains('>') {
            let i = choose|i: int| 0 <= i < list.len() && list[i] == '>';
            assert(is_list_char(list[i]));
        }
    }
    assert forall|i: int| !occurs_at(table_mark, table, i) by {
        if occurs_at(table_mark, table, i) {
            assert(table_mark.subrange(i, i + table.len())[b] == table_mark[i + b]);
        }
    }
    assert forall|i: int| !occurs_at(table_mark, list, i) by {
        if occurs_at(table_mark, list, i) {
            assert(table_mark.subrange(i, i + list.len())[0] == table_mark[i]);
            assert(table_mark.subrange(i, i + list.len())[1] == table_mark[i + 1]);
        }
    }
    assert forall|i: int| !occurs_at(cells_mark, list, i) by {
        if occurs_at(cells_mark, list, i) {
            assert(cells_mark.subrange(i, i + list.len())[0] == cells_mark[i]);
            assert(cells_mark.subrange(i, i + list.len())[1] == cells_mark[i + 1]);
        }
    }
    let with_table = replaced(template, table_mark, table);
    lemma_replaced_excludes(template, table_mark, table, table_mark);
    lemma_replaced_excludes(with_table, cells_mark, list, cells_mark);
    lemma_replaced_excludes(with_table, cells_mark, list, table_mark);
}

/// Planning with a template leaves no placeholder in any of the selects.
proof fn lemma_subqueries_without_placeholders(
    ts: TableSetView,
    cells: Seq<u64>,
    template: Seq<char>,
    target: u8,
    n: int,
)
    requires
        is_tableset(ts),
        0 <= n <= 256,
    ensures
        forall|i: int|
            0 <= i < subqueries(ts, cells, TableSetQueryView::TemplatedSelect(template), target, n).len()
                ==> without_placeholders(
                #[trigger] subqueries(
                    ts,
                    cells,
                    TableSetQueryView::TemplatedSelect(template),
                    target,
                    n,
                )[i],
            ),
    decreases n,
{
    if n > 0 {
        let query = TableSetQueryView::TemplatedSelect(template);
        lemma_subqueries_without_placeholders(ts, cells, template, target, n - 1);
        let before = subqueries(ts, cells, query, target, n - 1);
        let all = subqueries(ts, cells, query, target, n);
        let r = (n - 1) as u8;
        match chosen_table(ts, r, target) {
            Some(spec) => {
                let t = TableView { basename: ts.basename, spec };
                assert(ts.base_tables.contains_key(r) || ts.compacted_tables.contains_key(r));
                lemma_name_is_words(t);
                lemma_filled_without_placeholders(
                    template,
                    table_name(t),
                    ts.basename.len() as int,
                    ancestors(cells, r),
                );
                assert forall|i: int| 0 <= i < all.len() implies without_placeholders(
                    #[trigger] all[i],
                ) by {
                    if i < before.len() {
                        assert(all[i] == before[i]);
                    }
                }
            },
            None => {},
        }
    }
}

/// The planned query for a template holds neither placeholder: each was
/// replaced wherever it stood, and no replacement brought one back.
pub proof fn lemma_planned_without_placeholders(
    ts: TableSetView,
    cells: Seq<u64>,
    template: Seq<char>,
)
    requires
        is_tableset(ts),
    ensures
        planned(ts, cells, TableSetQueryView::TemplatedSelect(template)) is Ok
            ==> without_placeholders(
            planned(ts, cells, TableSetQueryView::TemplatedSelect(template))->Ok_0,
        ),
{
    let query = TableSetQueryView::TemplatedSelect(template);
    if planned(ts, cells, query) is Ok {
        reveal_strlit("<[table]>");
        reveal_strlit("<[h3indexes]>");
        reveal_strlit(" union all ");
        let target = resolution_of(cells[0]);
        let parts = subqueries(ts, cells, query, target, target + 1);
        lemma_subqueries_without_placeholders(ts, cells, template, target, target + 1);
        let separator = " union all "@;
        lemma_joined_excludes(parts, separator, table_placeholder());
        lemma_joined_excludes(parts, separator, cells_placeholder());
    }
}


} // verus!
