//! The result of a query that runs while the caller goes on: the columns
//! arrive once, are handed out once, and the query is waited for once.

use vstd::prelude::*;
use crate::columnset::{ColumnSet, NamedColumn};
use crate::error::{Error, ErrorView};

verus! {

/// The one-time right to wait for a query.
pub struct AwaitableResultSet {
    awaited: bool,
}

impl View for AwaitableResultSet {
    type V = bool;

    /// Whether the query has been waited for.
    closed spec fn view(&self) -> bool {
        self.awaited
    }
}

impl AwaitableResultSet {
    /// The right to wait for a query that was just submitted.
    pub fn new() -> (a: Self)
        ensures
            !a@,
    {
        AwaitableResultSet { awaited: false }
    }

    /// Takes the right to wait: granted the first time, and never again.
    pub fn wait_until_finished(&mut self) -> (r: Result<(), Error>)
        ensures
            final(self)@,
            !old(self)@ ==> r is Ok,
            old(self)@ ==> r is Err && r->Err_0@ == ErrorView::ResultAlreadyConsumed,
    {
        if self.awaited {
            Err(Error::ResultAlreadyConsumed)
        } else {
            self.awaited = true;
            Ok(())
        }
    }
}

/// Where the columns of a result are.
pub enum ColumnData {
    /// They have arrived; `None` once they have been handed out.
    Materialized(Option<ColumnSet>),
    /// The query is still to be waited for.
    Pending(AwaitableResultSet),
}

/// Mathematical value of a [`ColumnData`].
pub enum ColumnDataView {
    Materialized(Option<Seq<NamedColumn>>),
    /// Whether the query has been waited for.
    Pending(bool),
}

impl View for ColumnData {
    type V = ColumnDataView;

    open spec fn view(&self) -> ColumnDataView {
        match self {
            ColumnData::Materialized(Some(columns)) => ColumnDataView::Materialized(Some(columns@)),
            ColumnData::Materialized(None) => ColumnDataView::Materialized(None),
            ColumnData::Pending(a) => ColumnDataView::Pending(a@),
        }
    }
}

/// The result of a query.
pub struct ResultSet {
    pub h3indexes_queried: Option<Vec<u64>>,
    pub window_h3index: Option<u64>,
    pub column_data: ColumnData,
    /// How long the query took, in milliseconds. Not measured for every query.
    pub query_duration_ms: Option<u64>,
}

/// What to do to have the columns of a result.
#[derive(Clone, Copy, Debug, PartialEq, Eq, Structural)]
pub enum Observation {
    /// The columns are there, or have been handed out: nothing to wait for.
    Settled,
    /// Wait for the query, and hand its columns in with [`ResultSet::complete`].
    Wait,
}

impl ResultSet {
    /// The result of a query whose columns are there.
    pub fn from_columnset(columns: ColumnSet) -> (r: Self)
        ensures
            r.column_data@ == ColumnDataView::Materialized(Some(columns@)),
            r.h3indexes_queried.is_none(),
            r.window_h3index.is_none(),
            r.query_duration_ms.is_none(),
    {
        ResultSet {
            h3indexes_queried: None,
            window_h3index: None,
            column_data: ColumnData::Materialized(Some(columns)),
            query_duration_ms: None,
        }
    }

    /// The result of a query that is still running.
    pub fn from_awaitable(awaitable: AwaitableResultSet) -> (r: Self)
        ensures
            r.column_data@ == ColumnDataView::Pending(awaitable@),
            r.h3indexes_queried.is_none(),
            r.window_h3index.is_none(),
            r.query_duration_ms.is_none(),
    {
        ResultSet {
            h3indexes_queried: None,
            window_h3index: None,
            column_data: ColumnData::Pending(awaitable),
            query_duration_ms: None,
        }
    }

    /// Says whether the query has to be waited for before the columns can
    /// be had, and takes the right to wait where it has. A query that was
    /// waited for before cannot be waited for again.
    pub fn await_column_data(&mut self) -> (r: Result<Observation, Error>)
        ensures
            final(self).h3indexes_queried == old(self).h3indexes_queried,
            final(self).window_h3index == old(self).window_h3index,
            final(self).query_duration_ms == old(self).query_duration_ms,
            match old(self).column_data@ {
                ColumnDataView::Materialized(_) => r == Ok::<Observation, Error>(Observation::Settled)
                    && final(self).column_data@ == old(self).column_data@,
                ColumnDataView::Pending(false) => r == Ok::<Observation, Error>(Observation::Wait)
                    && final(self).column_data@ == ColumnDataView::Pending(true),
                ColumnDataView::Pending(true) => r is Err && r->Err_0@
                    == ErrorView::ResultAlreadyConsumed && final(self).column_data@
                    == ColumnDataView::Pending(true),
            },
    {
        match &mut self.column_data {
            ColumnData::Materialized(_) => Ok(Observation::Settled),
            ColumnData::Pending(awaitable) => match awaitable.wait_until_finished() {
                Ok(_) => Ok(Observation::Wait),
                Err(e) => Err(e),
            },
        }
    }

    /// Hands in the columns of the query that was waited for, and the
    /// time it took.
    pub fn complete(&mut self, columns: ColumnSet, elapsed_ms: u64)
        ensures
            final(self).h3indexes_queried == old(self).h3indexes_queried,
            final(self).window_h3index == old(self).window_h3index,
            final(self).column_data@ == ColumnDataView::Materialized(Some(columns@)),
            final(self).query_duration_ms == Some(elapsed_ms),
    {
        self.column_data = ColumnData::Materialized(Some(columns));
        self.query_duration_ms = Some(elapsed_ms);
    }

    /// Hands the columns out. They can be had once; after that, and
    /// while the query has not been waited for, there are none.
    pub fn get_columnset(&mut self) -> (columns: Option<ColumnSet>)
        ensures
            final(self).h3indexes_queried == old(self).h3indexes_queried,
            final(self).window_h3index == old(self).window_h3index,
            final(self).query_duration_ms == old(self).query_duration_ms,
            match old(self).column_data@ {
                ColumnDataView::Materialized(Some(c)) => columns.is_some() && columns->0@ == c
                    && final(self).column_data@ == ColumnDataView::Materialized(None),
                _ => columns.is_none() && final(self).column_data@ == old(self).column_data@,
            },
    {
        match &mut self.column_data {
            ColumnData::Materialized(held) => held.take(),
            ColumnData::Pending(_) => None,
        }
    }

    /// The number of cells that the query looked up.
    pub fn get_num_h3indexes_queried(&self) -> (n: Option<usize>)
        ensures
            match self.h3indexes_queried {
                Some(cells) => n == Some(cells@.len() as usize),
                None => n.is_none(),
            },
    {
        match &self.h3indexes_queried {
            Some(cells) => Some(cells.len()),
            None => None,
        }
    }

    /// The cells that the query looked up; none where it looked no cells up.
    pub fn get_h3indexes_queried(&self) -> (cells: Vec<u64>)
        ensures
            match self.h3indexes_queried {
                Some(queried) => cells@ == queried@,
                None => cells@.len() == 0,
            },
    {
        match &self.h3indexes_queried {
            Some(queried) => {
                let mut cells: Vec<u64> = Vec::new();
                let mut i: usize = 0;
                while i < queried.len()
                    invariant
                        i <= queried.len(),
                        cells@ == queried@.take(i as int),
                    decreases queried.len() - i,
                {
                    cells.push(queried[i]);
                    assert(cells@ =~= queried@.take(i + 1));
                    i += 1;
                }
                assert(queried@.take(queried@.len() as int) =~= queried@);
                cells
            },
            None => Vec::new(),
        }
    }

    /// The cell of the window that the result was fetched for.
    pub fn get_window_index(&self) -> (w: Option<u64>)
        ensures
            w == self.window_h3index,
    {
        self.window_h3index
    }

    /// How long the query took, in milliseconds.
    pub fn get_query_duration_ms(&self) -> (d: Option<u64>)
        ensures
            d == self.query_duration_ms,
    {
        self.query_duration_ms
    }
}

} // verus!
