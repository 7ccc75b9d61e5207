//! The output configuration: built once from the parsed command line, read
//! only from then on, and shared by every path of a run.

use vstd::prelude::*;
use crate::cli::{Cli, NumberingMode};

verus! {

/// The requested annotations: a numbering mode and an end-marker flag,
/// independent of each other.
#[derive(Clone, Copy, PartialEq, Eq, Structural)]
pub struct OutputOptions {
    pub numbering_mode: NumberingMode,
    pub show_ends: bool,
}

impl OutputOptions {
    /// No annotation is requested, so the byte-copy strategy applies.
    pub open spec fn spec_is_simple(&self) -> bool {
        self.numbering_mode is Never && !self.show_ends
    }

    /// Whether the byte-copy strategy applies in place of the line-oriented
    /// one; constant over a whole run since the options never change.
    pub fn is_simple(&self) -> (r: bool)
        ensures
            r == self.spec_is_simple(),
    {
        match (self.numbering_mode, self.show_ends) {
            (NumberingMode::Never, false) => true,
            _ => false,
        }
    }

    /// The options that a parsed command line requests.
    pub fn from(cli_options: &Cli) -> (r: Self)
        ensures
            r.numbering_mode == cli_options.numbering_mode,
            r.show_ends == cli_options.show_ends,
    {
        OutputOptions {
            numbering_mode: cli_options.numbering_mode,
            show_ends: cli_options.show_ends,
        }
    }
}

} // verus!
