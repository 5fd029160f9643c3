//! Lexical analysis for a small C-like teaching language: source text in,
//! ordered and position-tagged tokens out, or the first lexical error.

pub mod error;
pub mod laws;
pub mod lexer;
pub mod model;
pub mod types;
