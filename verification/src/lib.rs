//! A table model with per-column tri-state sorting and text filtering.
//!
//! The crate models a sortable, filterable table: a list of column
//! descriptors, a list of rows of a caller-defined type, and a per-column
//! order state. Clicking a column header rotates that column's order
//! through Unordered, Ascending and Descending, resets every other column,
//! and stably re-sorts the rows. Filtering is a view-time operation that
//! never mutates the row list. Rendering is kept abstract: the table
//! yields header cells and body cells as plain values for a host to draw.

pub mod error;
pub mod keys;
pub mod record;
pub mod sort;
pub mod table;
pub mod text;
pub mod types;
