//! A front end and tree-walking evaluator for a small Lox-family scripting
//! language: a scanner from source text to tokens, a recursive-descent parser
//! from tokens to statements, and an evaluator over the syntax tree. Each
//! stage is specified by spec functions (`scanner::lex`, `parser::program`,
//! `interpreter::eval`) and proved to compute exactly what they define.
pub mod ast_printable;
pub mod environment;
pub mod errors;
pub mod expr;
pub mod interpreter;
pub mod lox_value;
pub mod parser;
pub mod runner;
pub mod scanner;
pub mod stmt;
pub mod token;
