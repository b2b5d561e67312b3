//! What is handed to the code-generating model besides the prompt.

pub mod grammar;
