//! A small tree-walking interpreter for an expression language:
//! a scanner over grapheme clusters, a recursive-descent parser with
//! a fixed operator-precedence grammar, and an evaluator over dynamic
//! values (nil, booleans, 64-bit binary floating-point numbers kept as
//! their bit patterns, and strings).

pub mod expr;
pub mod interpreter;
pub mod lexing;
pub mod num;
pub mod parsing;
pub mod stmt;
