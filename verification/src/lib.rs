//! Verified core of a URL-list verification tool.
//!
//! The tool reads candidate URLs from a text file (one per line, blank
//! lines ignored), fetches each URL once, and scans the response body for
//! lines containing a search term.  The logic that decides which lines
//! become candidates, which body lines match, and what outcome each URL
//! gets is verified here; file and network I/O live outside the library
//! and hand in plain values.

use vstd::prelude::*;

pub mod pipeline;
pub mod source;
pub mod text;

verus! {

/// Immutable configuration record supplied once at startup by an external
/// argument/environment resolver.
pub struct Args {
    /// Path of the input file holding the collection of links to verify.
    pub file: String,
    /// The search term to look for in each response body.
    pub search: String,
    /// Path of the output file (accepted but not consumed by the pipeline).
    pub output: String,
}

impl Args {
    /// Builds the configuration record from its three fields.
    pub fn new(file: String, search: String, output: String) -> (args: Args)
        ensures
            args.file@ == file@,
            args.search@ == search@,
            args.output@ == output@,
    {
        Args { file, search, output }
    }
}

} // verus!
