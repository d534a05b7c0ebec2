//! The ways in which an operation on a store fails.

use vstd::prelude::*;

verus! {

/// Why an operation did not succeed. Every failure is handed to the caller
/// as a value; none is retried.
#[derive(Debug, Clone, Copy, PartialEq, Eq, Structural)]
pub enum Error {
    /// A file, or the profile that was to be replaced, does not exist.
    NotFound,
    /// A query matched `found` sites where exactly one was wanted: none, or
    /// more than one.
    AmbiguousOrMissingSite { found: usize },
    /// The URL of a site could not be parsed, or names no host.
    InvalidUrl,
    /// The decrypted text is not a store.
    MalformedStore,
    /// The external tool could not decrypt.
    DecryptFailed,
    /// The external tool could not encrypt.
    EncryptFailed,
}

} // verus!
