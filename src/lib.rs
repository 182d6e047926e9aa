//! Flattens structured documents into a stream of path-tagged records.
//!
//! A document is walked depth first. Every scalar produces a value record at
//! its path, every empty array or object produces a sentinel value record at
//! its own path, and every non-empty array or object produces a closing record
//! that carries the path of its last child.

pub mod bridge;
pub mod document;
pub mod model;
pub mod render;
pub mod round_trip;
pub mod walker;

pub use model::{PathStep, Record, Scalar};
pub use walker::Walker;
