//! Errors of the library.
use vstd::prelude::*;

verus! {

/// Why an operation of the library failed.
#[derive(Debug)]
pub enum ReqvireError {
    /// A glob pattern did not compile; the message says why.
    InvalidGlob(String),
    /// A regular expression did not compile; the message says why.
    InvalidRegex(String),
    /// No link relative to the diagram's document could be formed for this
    /// identifier or path.
    UnresolvedLink(String),
}

} // verus!
