//! A tree-walking interpreter front end for a small expression language:
//! lexer, Pratt parser, syntax tree with canonical rendering, and evaluator.
pub mod ast;
pub mod evaluator;
pub mod lexer;
pub mod object;
pub mod parser;
pub mod text;
pub mod token;
