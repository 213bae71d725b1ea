use vstd::prelude::*;

verus! {

/// The kinds of failure that the store reports.
#[derive(Debug, Clone, Copy, PartialEq, Eq, Structural)]
pub enum StoreError {
    /// The repository, or the requested credential, does not exist.
    NotFound,
    /// `init` was asked for a repository that is already there.
    AlreadyExists,
    /// The filesystem or the version-control backend failed.
    Io,
    /// A stored record does not have the expected shape.
    Parse,
    /// The passphrase does not fit the token, or the token is corrupted.
    Decryption,
}

} // verus!
