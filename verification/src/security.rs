//! Errors shared by the security modules.

use vstd::prelude::*;

verus! {

/// Failure of a security operation.
#[derive(Debug, Clone, PartialEq, Eq)]
pub enum SecurityError {
    EncryptionFailed(String),
    DecryptionFailed(String),
    InvalidKey(String),
    IntegrityViolation(String),
    AccessDenied(String),
}

/// Result of a security operation.
pub type SecurityResult<T> = Result<T, SecurityError>;

} // verus!
