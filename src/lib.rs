//! A lexical scanner for a small assembly-like language.
//!
//! `tokenize` turns source text into a flat sequence of tokens. Its result is
//! proved equal to the mathematical scanner `lex` of the `model` module, and
//! the `properties` module proves general facts about that scanner.
pub mod tokens;
pub mod model;
pub mod lexer;
pub mod properties;
