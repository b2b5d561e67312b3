//! Parsing, prompt building and template code generation for the huii
//! intent languages.

pub mod text;
pub mod parser;
pub mod codegen;
pub mod context;
pub mod compiler;
pub mod lock;
pub mod cli;
pub mod ai;
