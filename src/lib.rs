//! A parser for a small expression language: a Pratt parser over a token
//! stream that builds a syntax tree and collects diagnostics, with its
//! behaviour stated as spec functions over the token sequence.
pub mod ast;
pub mod lexer;
pub mod parser;
pub mod render;
pub mod token;
