//! Security: credentials, permissions, tokens, and the metrics that
//! authentication and authorization record.
use vstd::prelude::*;

pub mod api_key;
pub mod audit;
pub mod auth;
pub mod jwt;
pub mod metrics;

verus! {

/// Authentication and authorization errors.
#[derive(Debug, Clone)]
pub enum AuthError {
    /// Invalid credentials provided
    InvalidCredentials,
    /// Token has expired
    TokenExpired,
    /// Authentication required for this operation
    AuthenticationRequired,
    /// Permission denied
    PermissionDenied(String),
    /// Rate limit exceeded
    RateLimitExceeded,
    /// Invalid token format
    InvalidToken(String),
    /// Token generation failed
    TokenGenerationFailed(String),
    /// Audit logging failed
    AuditError(String),
}

} // verus!
