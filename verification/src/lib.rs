//! Front end of a small statically-typed scripting language: a lexer that
//! turns source text into tokens, and a recursive-descent parser that turns
//! tokens into an abstract syntax tree while tracking lexical scopes and
//! checking declared types.

pub mod tokens;
pub mod ast;
pub mod errors;
pub mod lexer;
pub mod text;
pub mod parser;
pub mod laws;
