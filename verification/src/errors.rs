use vstd::prelude::*;

verus! {

/// Failure classes of the authentication subsystem.
///
/// Every fallible operation of this crate reports one of these values;
/// the HTTP edge maps them to status codes with `http_status`.
#[derive(Clone, Copy, Debug, PartialEq, Eq, Structural)]
pub enum AuthError {
    /// Malformed hex, malformed binary envelope, or a wrong signature length.
    DecodeError,
    /// Signature mismatch, or an invalid or expired token.
    AuthenticationError,
    /// The challenge timestamp is older than the tolerance window allows.
    ChallengeExpired,
    /// The challenge timestamp lies in the future.
    ChallengeFromFuture,
    /// A session lookup failed.
    NotFound,
    /// Token issuance failed.
    TokenCreation,
}

impl AuthError {
    /// The HTTP status code this failure maps to at the service edge.
    pub fn http_status(&self) -> (code: u16)
        ensures
            code == match self {
                AuthError::DecodeError => 400u16,
                AuthError::AuthenticationError => 401u16,
                AuthError::ChallengeExpired => 400u16,
                AuthError::ChallengeFromFuture => 400u16,
                AuthError::NotFound => 404u16,
                AuthError::TokenCreation => 500u16,
            },
    {
        match self {
            AuthError::DecodeError => 400,
            AuthError::AuthenticationError => 401,
            AuthError::ChallengeExpired => 400,
            AuthError::ChallengeFromFuture => 400,
            AuthError::NotFound => 404,
            AuthError::TokenCreation => 500,
        }
    }

    /// A generic, non-leaking description for the HTTP edge.
    pub fn message(&self) -> (msg: &'static str)
        ensures
            msg@ == match self {
                AuthError::DecodeError => "Malformed request"@,
                AuthError::AuthenticationError => "Invalid signature or token"@,
                AuthError::ChallengeExpired => "Challenge expired"@,
                AuthError::ChallengeFromFuture => "Challenge timestamp is in the future"@,
                AuthError::NotFound => "Session not found"@,
                AuthError::TokenCreation => "Failed to generate token"@,
            },
    {
        match self {
            AuthError::DecodeError => "Malformed request",
            AuthError::AuthenticationError => "Invalid signature or token",
            AuthError::ChallengeExpired => "Challenge expired",
            AuthError::ChallengeFromFuture => "Challenge timestamp is in the future",
            AuthError::NotFound => "Session not found",
            AuthError::TokenCreation => "Failed to generate token",
        }
    }
}

} // verus!
