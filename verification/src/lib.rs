//! A small imperative language: integer arithmetic, boolean guards,
//! assignment, sequencing, conditionals and while-loops, together with a
//! verified tree-walking evaluator over an explicit variable store.

pub mod arith;
pub mod ast;
pub mod driver;
pub mod error;
pub mod exec;
pub mod expr;
pub mod flow;
pub mod laws;
pub mod state;
