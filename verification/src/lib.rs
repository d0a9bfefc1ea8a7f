//! Infix expression parsing by precedence climbing.
//!
//! A [`Parser`] is built once from an ordered list of operator tokens
//! (later entries bind tighter) and can then turn flat token sequences
//! such as `1 + 2 * 3` into abstract syntax trees ([`ast::Node`]).
//! Where an operand is syntactically absent (a leading sign, an operator
//! against a grouping boundary) a placeholder leaf is synthesized instead
//! of rejecting the input; every malformed input is reported by a single
//! failure signal (`None`).
//!
//! The whole engine is specified by the spec functions in [`model`], and
//! [`Parser::parse`] is proved to return exactly what the model says.
//! General properties of the engine are proved in [`laws`].

pub mod ast;
pub mod laws;
pub mod model;
pub mod parser;

pub use ast::Node;
pub use parser::Parser;
