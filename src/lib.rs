//! An in-memory query engine for an inventory dataset: records imported from
//! delimited text or restored from a store, shown through filtered, sorted and
//! renumbered views, with a per-column width hint for display.

pub mod error;
pub mod import;
pub mod laws;
pub mod query;
pub mod record;
pub mod session;
pub mod text;
pub mod view;
pub mod widths;
