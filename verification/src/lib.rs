//! A small ahead-of-time compiler: source bytes are split into tokens, the
//! tokens are parsed into statements, and the statements are turned into
//! x86-64 assembly text.
//!
//! The stages are `lexer::lex`, `parser::Parser::parse` and
//! `codegen::compile`; `pipeline::compile_source` runs them in a row. What each
//! of them returns is defined in `lexer`, `grammar` and `assembly` as a
//! function of its input.

pub mod assembly;
pub mod ast;
pub mod codegen;
pub mod error;
pub mod grammar;
pub mod lexer;
pub mod notation;
pub mod parser;
pub mod pipeline;
pub mod text;

pub use error::JPLError;
