//! Options of a query over a directory of indexes.
use vstd::prelude::*;

verus! {

/// The directory to query, if given, and what to show.
#[derive(Debug)]
pub struct Options {
    pub folder: Option<String>,
    pub summary: bool,
    pub verbose: bool,
}

impl Options {
    /// Show per-index counts instead of a record.
    pub fn summary(&self) -> (r: bool)
        ensures
            r == self.summary,
    {
        self.summary
    }

    /// Also show the logical name of the record's index.
    pub fn verbose(&self) -> (r: bool)
        ensures
            r == self.verbose,
    {
        self.verbose
    }
}

/// Where the query settings say the indexes are.
#[derive(Debug)]
pub struct FortuneConfig {
    pub data_path: String,
}

} // verus!
