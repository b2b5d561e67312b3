//! Lock records that tie generated code to the source it came from.

pub mod manager;
