//! An in-memory registry of single-inheritance classes and the methods they
//! define or inherit, together with the line-oriented command language that
//! drives it from a prompt.
//!
//! The registry lives in [`method_table`]; the command parser and the
//! prompt-loop state live in [`driver`].

pub mod driver;
pub mod method_table;
