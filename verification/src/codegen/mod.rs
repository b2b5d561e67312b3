//! Code generation from flows.

pub mod template_gen;
