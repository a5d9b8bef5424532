//! Front end of the BabyDuck teaching language: tokens, lexer, syntax tree
//! and parser, with machine-checked contracts.

pub mod ast;
pub mod grammar;
pub mod laws;
pub mod lexer;
pub mod lexical;
pub mod munch;
pub mod parser;
pub mod printing;
pub mod tokens;
pub mod unparse;
