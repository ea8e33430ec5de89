//! Generates Python classes from Rust modules of metric names.

pub mod ast;
pub mod names;
pub mod parser;
pub mod python;
