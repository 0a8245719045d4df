//! A zero-knowledge encrypted file-storage core.
//!
//! The server persists only ciphertext and encrypted metadata; clients keep
//! plaintext keys derived from their password.  Access control is a keyring
//! graph: a user can read a file exactly when a chain of wrapped keys leads
//! from the user's root keyring to that file.

use vstd::prelude::*;

pub mod access;
pub mod auth;
pub mod client;
pub mod crypto;
pub mod files;
pub mod laws;
pub mod store;
pub mod tree;

verus! {

/// Keyring identifiers issued by the server, one per root or folder keyring.
pub type KeyringId = u64;

/// File identifiers: opaque 128-bit values, never reused.
pub type FileId = u128;

/// The recoverable request outcomes; each maps to one HTTP status.
#[derive(Clone, Copy, Debug, PartialEq, Eq, Structural)]
pub enum ApiError {
    /// No, malformed, unknown or expired bearer token.
    Unauthorized,
    /// Authenticated, but no decryption path to the named target.
    Forbidden,
    /// Username already taken.
    Conflict,
    /// Unknown user.
    NotFound,
}

} // verus!
