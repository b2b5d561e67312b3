//! The command line: its shape, and the decisions behind the `run` command.

pub mod commands;

use vstd::prelude::*;

verus! {

/// The parsed command line.
#[derive(Debug)]
pub struct Cli {
    pub command: Option<Commands>,
}

/// The subcommands.
#[derive(Debug)]
pub enum Commands {
    /// Run a `.hbp` or `.has` file.
    Run {
        file: String,
        model: Option<String>,
        /// Regenerate even when the lock record matches.
        force: bool,
        /// Log more.
        verbose: bool,
        args: Vec<String>,
    },
}

} // verus!
