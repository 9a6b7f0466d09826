//! A small interpreted scripting language: a lexer, a structural parser that
//! builds a tree of nodes, a model of runtime values and a tree-walking
//! evaluator whose native functions are supplied by the host program.
//!
//! A script goes through [`lexer::make_tokens`], [`parser::parse`],
//! [`parser::make_fn`] and [`parser::make_fn_call`], and is run by
//! [`interpreter::interpret`]. What evaluation means is laid down in
//! [`semantics`].

pub mod data_types;
pub mod errors;
pub mod interpreter;
pub mod lexer;
pub mod natives;
pub mod nodes;
pub mod number;
pub mod parser;
pub mod scope;
pub mod semantics;
pub mod std_lib;
pub mod text;
pub mod tokens;
