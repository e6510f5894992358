//! A small compiler for a block-structured imperative language: a scanner, a
//! recursive-descent parser, a scoped symbol table, a generator of
//! three-address code and an interpreter for that code.
//!
//! - [`lexer`]: tokens, the scanner, and what the scanner does to a text.
//! - [`parser`]: the parser's state, one token of lookahead in front of the
//!   scanner. [`grammar`] says what each kind of node is made of;
//!   [`precedence`] and [`text`] say what holds of the trees that come out.
//! - [`ast`]: the syntax tree, with the parser and the code generation of
//!   each kind of node.
//! - [`symbol_table`]: the frames of the open blocks and the layout of the
//!   stack.
//! - [`code_generator`]: instructions, addresses and the generator's state.
//!   [`emission`] says which instructions each kind of node emits;
//!   [`control_flow`] says where the jumps go.
//! - [`interpreter`]: the machine that runs the instructions.
//!   [`evaluation`] says what the code of a comparison computes on it.

pub mod ast;
pub mod code_generator;
pub mod control_flow;
pub mod emission;
pub mod evaluation;
pub mod grammar;
pub mod interpreter;
pub mod lexer;
pub mod parser;
pub mod precedence;
pub mod symbol_table;
pub mod text;
