//! A store of data by hexagonal cells in a columnar database: the tables
//! of a dataset at several resolutions, the queries that look cells up in
//! them, and the expansion of what is found under the ancestors of cells.
//!
//! Every function of the library is verified against its contract, but
//! for the few that call into the indexing library, the URL parser or an
//! unspecified function of the standard library: these are marked as
//! trusted where they stand, in the modules `h3`, `url_check` and `text`.

pub mod catalog;
pub mod cells;
pub mod columnset;
pub mod compacted_tables;
pub mod env;
pub mod error;
pub mod h3;
pub mod order;
pub mod planner;
pub mod resultset;
pub mod schema;
pub mod store;
pub mod table;
pub mod tableset;
pub mod text;
pub mod uncompact;
pub mod url_check;
pub mod window;

use vstd::prelude::*;

verus! {

/// Name of the column that holds the cell index in every table of a tableset.
pub const COL_NAME_H3INDEX: &'static str = "h3index";

/// Finest resolution of the cell hierarchy.
pub const H3_MAX_RESOLUTION: u8 = 15;

} // verus!
