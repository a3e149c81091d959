//! A small compiler from a parenthesised prefix-call language to C-like call syntax.
//!
//! The pipeline is tokenizer, parser, transformer and code generator; each stage is
//! verified against a mathematical model of what it computes.

pub mod ast;
pub mod codegen;
pub mod compiler;
pub mod error;
pub mod parser;
pub mod properties;
pub mod tokenizer;
pub mod transformer;
pub mod traverser;

pub use compiler::compile;
pub use error::{CompilerError, Result};
