//! Lexical front end of a small C-like scripting language.
//!
//! The crate turns source text into a sequence of classified lexemes. Every
//! function is verified against a mathematical description of the scanner
//! stated over the raw bytes of the source.

pub mod compiler;
pub mod grammar;
pub mod laws;
pub mod lexer;
pub mod symbol_table;
pub mod text;
