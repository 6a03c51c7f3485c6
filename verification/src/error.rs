//! The failures an operation on the log can end in.

use vstd::prelude::*;

verus! {

/// Why an operation on the log was given up.
#[derive(Clone, Copy, Debug, PartialEq, Eq, Structural)]
pub enum Error {
    /// The store could not read or write, or a constraint of it was violated.
    Store,
    /// No item matches a direct lookup.
    NotFound,
    /// An external command could not be started or awaited, or ended without an exit code.
    Subprocess,
    /// Captured data is not valid text where text is required.
    Encoding,
}

impl Error {
    /// The exit code a process ends with after this failure: never zero.
    pub fn exit_code(&self) -> (code: i32)
        ensures
            code == 1,
    {
        1
    }
}

} // verus!
