//! The abstract syntax tree, with the parser and the code generation of each node.

pub mod expression;
pub mod statement;
