//! Welding of identifiers and string literals from a small naming language.
use vstd::prelude::*;

pub mod models;
pub mod text;
pub mod casing;
pub mod builder;
pub mod laws;
pub mod tokens;
pub mod parser;
pub mod scanner;
pub mod literals;

verus! {
}
