//! TyPy: a small, statically typed, Python-like language.
//!
//! Source text goes through the tokenizer, the parser, the type checker and
//! the compiler, and the bytecode runs on a stack-based virtual machine.
//! Each stage is specified by Verus spec functions, and the executable code
//! is proved to agree with them.

pub mod text;
pub mod object;
pub mod value;
pub mod symbol;
pub mod tokenizer;
pub mod token_stream;
pub mod parser;
pub mod types;
pub mod checker;
pub mod compiler;
pub mod vm;
pub mod cli;
pub mod interpreter;
pub mod resolution;
