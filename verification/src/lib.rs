//! Bytecode back end for a small scripting language: a chunk format with a
//! byte-exact instruction encoding, a compiler that lowers the abstract
//! syntax tree into chunks, a scope-chained variable store, and a stack
//! virtual machine that executes chunks against that store.

pub mod ast;
pub mod chunk;
pub mod compile;
pub mod env;
pub mod error;
pub mod instr;
pub mod laws;
pub mod lexer;
pub mod ops;
pub mod parse;
pub mod runtime;
pub mod token;
pub mod value;
