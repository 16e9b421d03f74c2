//! The error type shared by the fallible operations of the crate.

use vstd::prelude::*;

verus! {

/// Why an operation could not be carried out.
#[derive(Debug)]
pub enum Error {
    /// Reading or writing a file failed.
    Io(String),
    /// Raw input arrays or text were malformed.
    Parse(String),
    /// A handle or a link of the mesh broke a topological invariant.
    Topology(String),
    /// A numeric step had no answer, such as the inverse of a singular matrix.
    Numeric(String),
    /// The operation is not available.
    Unsupported(String),
}

} // verus!
