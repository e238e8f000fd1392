//! Deterministic, diff-friendly rendering of structural debug values.
//!
//! A structural debug rendering of a value that contains hash-based
//! containers varies from run to run.  This library parses such a rendering
//! into a tree, rewrites every unordered container into a canonical order,
//! and renders the tree back as stable, multi-line text, so that two
//! logically equal values always produce byte-identical output.

pub mod value;
pub mod order;
pub mod normalize;
pub mod render;
pub mod parse;
pub mod assertion;
pub mod laws;

pub use assertion::{check_sorted_eq, sorted_text, SortedEqError};
pub use normalize::normalize;
pub use render::render;
pub use value::Value;
