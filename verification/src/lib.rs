//! Renders an abstract tabular data model into styled, fixed-width text:
//! a terminal box-drawing grid or a plain markup pipe table.
//!
//! The model supports per-table/column/row/cell style overrides, multi-line
//! cell content with word wrapping, and recursively nested tables. Rendering
//! borrows the table immutably and produces an owned string; an empty table
//! (no rows or no columns) is rejected rather than rendered.

pub mod style;
pub mod table;
pub mod renderer;
pub mod lazy;
pub mod memoized;
