//! Front ends for the three source formats and the syntax tree they share.

pub mod ais_parser;
pub mod ast;
pub mod bp_parser;
pub mod has_parser;
pub mod scan;

/// The blueprint front end under the name of its file format (`.hbp`).
pub use self::bp_parser as hbp_parser;

use vstd::prelude::*;

verus! {

/// Why a front end could not read its input.
#[derive(Debug, Clone, Copy, PartialEq, Eq)]
pub enum ParseError {
    /// The input does not have the expected shape.
    Mismatch,
    /// A separator that reads nothing was found between list elements, so
    /// the list cannot be read further.
    NoProgress,
}

} // verus!
