//! The registry of declarations and prompt construction.

pub mod builder;
