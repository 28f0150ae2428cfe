//! The command line.
use vstd::prelude::*;

verus! {

/// The command-line arguments: the configuration file (TOML), empty for
/// the built-in configuration.
pub struct Args {
    pub file: String,
}

impl Args {
    /// Arguments naming the configuration file `file`.
    pub fn new(file: String) -> (a: Self)
        ensures
            a.file == file,
    {
        Args { file }
    }
}

} // verus!
