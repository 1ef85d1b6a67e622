//! Front end and IR generator for a small imperative expression language:
//! source text is split into tokens, parsed into a syntax tree, and lowered
//! into textual LLVM-style IR.
pub mod ast;
pub mod backend;
pub mod codegen;
pub mod compiler;
pub mod ir;
pub mod lexer;
pub mod options;
pub mod parser;
pub mod text;
pub mod token;
