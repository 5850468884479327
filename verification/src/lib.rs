//! A small scripting language: a parser from source text to a syntax tree,
//! and a tree-walking evaluator over a chain of variable scopes.
//!
//! - `chars`: character classes and the scanning primitives, which are calls
//!   into `nom` and `std`.
//! - `generic`: identifiers, and the scan for a closing bracket.
//! - `ast`: the syntax tree and its model.
//! - `arithmetic`: arithmetic expressions with their precedence.
//! - `grammar`: statements and programs.
//! - `display`: the text of a syntax tree.
//! - `roundtrip`: the text of a parsed expression parses back to its tree.
//! - `runtime`: values, scopes and the evaluator.
//! - `lexer`: a tokenizer for arithmetic.
//! - `error`: the errors of parsing and of evaluation.

pub mod arithmetic;
pub mod ast;
pub mod chars;
pub mod display;
pub mod error;
pub mod generic;
pub mod grammar;
pub mod lexer;
pub mod roundtrip;
pub mod runtime;
