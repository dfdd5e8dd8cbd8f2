//! Parsing of arithmetic expressions into a syntax tree with source spans, and
//! evaluation of that tree into a canonical symbolic form with exact decimal
//! coefficients.

pub mod application;
pub mod ast;
pub mod decimal;
pub mod text;
