use vstd::prelude::*;

verus! {

/// The ways an operation on a store can fail.
#[derive(Debug, PartialEq, Eq)]
pub enum StoreError {
    /// A document at the library root is absent or cannot be written:
    /// the root that was tried and what the system reported.
    ConfigMissing(String, String),
    /// A document does not match the playlist schema.
    ParseError(String),
    /// No playlist matches the key that was searched for.
    PlaylistNotFound(String),
}

} // verus!
