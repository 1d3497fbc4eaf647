//! A tree-walking interpreter for a small dynamically typed scripting
//! language: parser, syntax tree, scope chain and evaluator.

pub mod ast;
pub mod environment;
pub mod error;
pub mod function;
pub mod grammar;
pub mod interpreter;
pub mod machine;
pub mod parser;
pub mod precedence;
pub mod recognition;
pub mod return_value;
pub mod spelling;
pub mod token;
pub mod translator;
