//! Error kinds surfaced by the storage engine and its authentication gate.

use vstd::prelude::*;

verus! {

/// Failures of the storage operations. Ownership, lifecycle and
/// validation failures are distinct kinds so the transport layer can
/// map them to distinct status codes.
#[derive(Clone, Copy, Debug, PartialEq, Eq, Structural)]
pub enum StorageError {
    /// The file, chunk or user addressed by the call is absent.
    NotFound,
    /// The caller does not own the file it addresses.
    Forbidden,
    /// The file is not in the lifecycle state the call needs.
    InvalidState,
    /// The identifier holds path-traversal characters.
    InvalidIdentifier,
    /// Finalize was called on a file with no chunks at all.
    EmptyUpload,
    /// The chunk indices on record are not exactly `0..n`.
    MissingOrDisordered,
    /// The blob store failed to read or write a payload.
    IoError,
    /// The catalog refused a row operation.
    StoreError,
}

/// Failures of token verification and of the access guard.
#[derive(Clone, Copy, Debug, PartialEq, Eq, Structural)]
pub enum AuthError {
    /// No authorization header was presented.
    MissingCredential,
    /// The header does not follow the `Bearer <token>` convention.
    MalformedCredential,
    /// The token cannot be decrypted or its claims cannot be read.
    Malformed,
    /// The token's expiry lies before the verification time.
    Expired,
}

/// Failures of registration and login in the identity subsystem.
#[derive(Clone, Copy, Debug, PartialEq, Eq, Structural)]
pub enum IdentityError {
    /// The username is outside 3..=50 characters or holds a
    /// character other than letters, digits, `-` and `_`.
    InvalidUsername,
    /// The password is shorter than 8 characters.
    InvalidPassword,
    /// Another user already holds the username.
    UsernameTaken,
    /// The password hasher rejected the input.
    HashingFailed,
    /// No user with the given name exists.
    UnknownUser,
    /// The stored password hash is unreadable or does not match.
    InvalidCredentials,
    /// The catalog refused the new user row.
    StoreError,
}

} // verus!
