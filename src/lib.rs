//! A lexical scanner for a small scripting language: source text in, tokens
//! and collected lexical errors out.
pub mod error;
pub mod grammar;
pub mod laws;
pub mod scanner;
pub mod text;
pub mod token;
