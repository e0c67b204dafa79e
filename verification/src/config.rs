//! The caller-supplied settings of one search run: what to look for, where to
//! look, and whether letter case is significant.

use vstd::prelude::*;

verus! {

/// A search request: the query string, the path of the text to search, and
/// whether matching ignores letter case.
///
/// The fields are plain data; reading the file behind `file_path` and choosing
/// `ignore_case` from the surroundings are the caller's business.
pub struct Config {
    pub query: String,
    pub file_path: String,
    pub ignore_case: bool,
}

} // verus!
