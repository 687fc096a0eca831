//! The command-line surface: what a run is asked to do.

use vstd::prelude::*;

verus! {

/// The output format of a run.
#[derive(Debug, Clone, Copy, PartialEq, Eq, Structural)]
pub enum OutputFormat {
    Markdown,
    Json,
}

impl Default for OutputFormat {
    /// Markdown is the default format.
    fn default() -> (r: Self)
        ensures
            r == OutputFormat::Markdown,
    {
        OutputFormat::Markdown
    }
}

/// A run's arguments: the input file or directory, and the format.
#[derive(Debug)]
pub struct Cli {
    pub input: String,
    pub format: OutputFormat,
}

} // verus!
