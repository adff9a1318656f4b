//! What a run is asked to do.
use vstd::prelude::*;

verus! {

/// The patterns and switches of one run.
pub struct Options {
    /// The regex pattern matching the source files.
    pub source: String,
    /// The pattern of the destination files, with capture-group references.
    pub destination: String,
    /// Show the plan without renaming any files.
    pub preview: bool,
    /// Display what is being done.
    pub verbose: bool,
    /// Overwrite files that exist already.
    pub force: bool,
    /// Match paths in subdirectories too, not only the entries of the current directory.
    pub match_subdirs: bool,
}

impl Options {
    /// The deepest level of the directory walk, if it is bounded.
    pub fn max_depth(&self) -> (r: Option<usize>)
        ensures
            r == (if self.match_subdirs { None } else { Some(1usize) }),
    {
        if self.match_subdirs {
            None
        } else {
            Some(1)
        }
    }
}

} // verus!
