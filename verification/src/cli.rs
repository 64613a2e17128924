//! What is given on the command line.

use vstd::prelude::*;
use crate::unit::Unit;

verus! {

/// The arguments of a run, as they were given.
#[derive(Debug)]
pub struct Args {
    /// Directory to view.
    pub dir: String,
    /// Canonicalize file paths.
    pub canonicalize: bool,
    /// Maximum depth to traverse.
    pub max_depth: Option<usize>,
    /// Show hidden entries.
    pub show_hidden: bool,
    /// Render the output as a table.
    pub table: bool,
    /// Unit for file sizes.
    pub unit: Option<Unit>,
    /// List the newest entry first.
    pub reversed: bool,
}

} // verus!
