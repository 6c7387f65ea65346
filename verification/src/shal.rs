//! The SHAL rule language: syntax tree, compiler, bytecode and simulator.

pub mod ast;
pub mod bytecode;
pub mod common;
pub mod compiler;
pub mod document;
pub mod interpreter;
pub mod lexer;
pub mod parser;
pub mod semantics;
