//! Transcodes delimited tabular text into a formatted spreadsheet, applying a
//! per-column type policy: numeric coercion, date normalization, free-text
//! passthrough, and category columns that receive a dropdown validation built
//! from the values observed in the data or from a fixed domain.

pub mod categories;
pub mod logic;
pub mod sheet;
pub mod text;
pub mod types;
