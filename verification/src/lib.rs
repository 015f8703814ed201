//! A small expression language: a scanner, a single-pass precedence-climbing
//! compiler, a compact bytecode container and a stack machine that runs it.

pub mod value;
pub mod opcode;
pub mod line_start;
pub mod chunk;
pub mod text;
pub mod token;
pub mod scanner;
pub mod parser;
pub mod vm;
pub mod debug;
pub mod expression;
pub mod soundness;
