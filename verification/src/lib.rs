//! Front end for a small C-like expression language: a lexer that turns
//! source text into tokens, and a Pratt (precedence-climbing) parser that
//! builds an abstract syntax tree, accumulating syntax errors instead of
//! aborting on the first one.

pub mod ast;
pub mod digits;
pub mod laws;
pub mod lexer;
pub mod parser;
pub mod token;
