//! Options that a run of the surrounding tool is given.

use vstd::prelude::*;

verus! {

/// What a run was asked to do: which files to read, and whether to print
/// each record or only the final count.
#[derive(Debug)]
pub struct Cli {
    /// Only count log entries; print nothing per record.
    pub count_only: bool,
    /// Paths of the JSON log files to read, in order.
    pub log: Vec<String>,
}

} // verus!
