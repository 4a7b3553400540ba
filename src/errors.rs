//! Errors of scrypt operations.
use vstd::prelude::*;

verus! {

/// The cost parameters are zero or the sizes they imply overflow.
#[derive(Debug, Clone, Copy, PartialEq, Eq, Structural)]
pub struct InvalidParams;

/// The requested output length is zero or beyond what PBKDF2 can produce.
#[derive(Debug, Clone, Copy, PartialEq, Eq, Structural)]
pub struct InvalidOutputLen;

/// Why a password does not check against a stored hash string.
#[derive(Debug, Clone, Copy, PartialEq, Eq, Structural)]
pub enum CheckError {
    /// The string is well formed but the password hashes to another value.
    HashMismatch,
    /// The string is not a well-formed hash string.
    InvalidFormat,
}

} // verus!
