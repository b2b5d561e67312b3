//! Checking generated code with the compiler, and condensing its errors.

pub mod semantic;
