//! Front end of a small expression language: a character-level lexer that
//! turns source text into tokens, and a recursive-descent parser with
//! precedence climbing that turns tokens into an abstract syntax tree.
pub mod ast;
pub mod lexer;
pub mod lexer_laws;
pub mod parser;
pub mod parser_laws;
