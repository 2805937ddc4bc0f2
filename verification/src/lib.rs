//! A tree-walking interpreter for a small dynamically typed scripting
//! language: scanner, parser, lexical environments and evaluator.
//!
//! Numbers of the language are IEEE 754 doubles. The library carries them
//! as their 64-bit patterns and never computes on them in floating point:
//! sign, order and truncation are read off the bits, while sums,
//! differences, products, quotients and the reading of decimal literals are
//! asked of closures that the caller supplies. What the library proves of a
//! program holds for whatever arithmetic those closures do.

pub mod ast;
pub mod environment;
pub mod interpreter;
pub mod laws;
pub mod lox;
pub mod number;
pub mod parser;
pub mod rescan;
pub mod scanner;
pub mod text;
pub mod token;
