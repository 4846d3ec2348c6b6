//! Wavefront geometry (`.obj`) and material (`.mtl`) text, parsed into
//! validated records.
//!
//! - [`text`]: lines, words and fields of a text, made of characters.
//! - [`number`]: number literals and exact range tests on them.
//! - [`types`]: the records, their views and their checks.
//! - [`geometry`]: geometry text to an [`types::Object`].
//! - [`material`]: material text to a checked [`types::Material`].
//! - [`parse`]: the path of the material file, and the two parses together.
//! - [`laws`]: what holds of the parsers on every input.

pub mod geometry;
pub mod laws;
pub mod material;
pub mod number;
pub mod parse;
pub mod text;
pub mod types;
pub mod utils;
pub mod views;
