//! The configuration delivered by the command line: the ordered paths, the
//! numbering mode and the end-marker flag.

use vstd::prelude::*;
use vstd::string::StringExecFns;

verus! {

/// Which lines receive a sequential ordinal prefix: `Never` numbers no line,
/// `NonEmpty` numbers only lines with content, `All` numbers every line.
#[derive(Clone, Copy, PartialEq, Eq, Structural)]
pub enum NumberingMode {
    Never,
    NonEmpty,
    All,
}

/// The parsed command line: zero or more paths in output order, and the two
/// annotation options.
pub struct Cli {
    pub paths: Vec<String>,
    pub numbering_mode: NumberingMode,
    pub show_ends: bool,
}

impl NumberingMode {
    /// The mode's name as written on the command line.
    pub fn to_string(&self) -> (r: String)
        ensures
            *self is Never ==> r@ == "none"@,
            *self is NonEmpty ==> r@ == "non_empty"@,
            *self is All ==> r@ == "all"@,
    {
        match self {
            NumberingMode::Never => String::from_str("none"),
            NumberingMode::NonEmpty => String::from_str("non_empty"),
            NumberingMode::All => String::from_str("all"),
        }
    }
}

} // verus!
