//! Front end of a small statically typed procedural language: a lexer that
//! turns source text into tokens, a recursive-descent parser that builds a
//! typed abstract syntax tree, and a semantic analyzer that checks scopes,
//! types and control flow, collecting errors and warnings.

pub mod analysis;
pub mod ast;
pub mod errors;
pub mod frontend;
pub mod laws;
pub mod lexer;
pub mod parser;
pub mod pretty;
pub mod symbols;
pub mod token;
