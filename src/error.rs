//! Errors that the server core reports to its callers.
use vstd::prelude::*;

verus! {

#[derive(Debug, PartialEq, Eq)]
pub enum ApiError {
    /// A lock was abandoned by a holder that stopped mid-way.
    PoisonedLock,
    /// Reading or writing a transport failed; the text says how.
    IoError(String),
    /// No session is registered under the given identifier.
    MissingClient,
}

} // verus!
