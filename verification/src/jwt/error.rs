//! Authentication failures.
use vstd::prelude::*;
use crate::jwt::crypto::{debug_quote, debug_quoted};
use crate::text::concat;

verus! {

/// Why authentication failed.
#[derive(Debug, Clone, PartialEq, Eq)]
pub enum AuthError {
    NoToken,
    MalformedToken,
    UnsupportedAlgorithm(String),
    Decode(&'static str),
    Parse(&'static str),
    BadSignature,
    IssuerMismatch,
    AudienceMismatch,
    TokenExpired,
    MissingExpiry,
    TokenNotYetValid,
    MissingUserId,
    InvalidClaimValue,
    TypeMismatch,
    TokenRevoked,
    MissingJti,
    Config(&'static str),
}

/// The client-facing message of an error.
pub open spec fn auth_message(e: AuthError) -> Seq<char> {
    match e {
        AuthError::NoToken => "missing or malformed authorization header"@,
        AuthError::MalformedToken => "malformed jwt token"@,
        AuthError::UnsupportedAlgorithm(_) => "unsupported signing algorithm"@,
        AuthError::Decode(_) => "token decoding failed"@,
        AuthError::Parse(_) => "token parsing failed"@,
        AuthError::BadSignature => "invalid token signature"@,
        AuthError::IssuerMismatch => "token issuer not accepted"@,
        AuthError::AudienceMismatch => "token audience not accepted"@,
        AuthError::TokenExpired => "token has expired"@,
        AuthError::MissingExpiry => "token has no expiry"@,
        AuthError::TokenNotYetValid => "token is not yet valid"@,
        AuthError::MissingUserId => "token missing required identity claim"@,
        AuthError::InvalidClaimValue => "token identity claim is not usable"@,
        AuthError::TypeMismatch => "token type not accepted"@,
        AuthError::TokenRevoked => "token has been revoked"@,
        AuthError::MissingJti => "token missing required id claim"@,
        AuthError::Config(_) => "authentication service misconfigured"@,
    }
}

/// The server-side log line of an error.
pub open spec fn auth_log_message(e: AuthError) -> Seq<char> {
    match e {
        AuthError::Config(detail) => "config error: "@ + detail@,
        AuthError::UnsupportedAlgorithm(alg) => "unsupported algorithm: "@ + debug_quoted(alg@),
        AuthError::Decode(part) => "base64 decode failed: "@ + part@,
        AuthError::Parse(part) => "json parse failed: "@ + part@,
        other => auth_message(other),
    }
}

impl AuthError {
    /// HTTP status: 500 for a configuration error, 401 for everything else.
    pub fn status(&self) -> (s: u16)
        ensures
            s == (if self is Config { 500u16 } else { 401u16 }),
    {
        match self {
            AuthError::Config(_) => 500,
            _ => 401,
        }
    }

    /// The generic message shown to clients.
    pub fn message(&self) -> (m: &'static str)
        ensures
            m@ == auth_message(*self),
    {
        match self {
            AuthError::NoToken => "missing or malformed authorization header",
            AuthError::MalformedToken => "malformed jwt token",
            AuthError::UnsupportedAlgorithm(_) => "unsupported signing algorithm",
            AuthError::Decode(_) => "token decoding failed",
            AuthError::Parse(_) => "token parsing failed",
            AuthError::BadSignature => "invalid token signature",
            AuthError::IssuerMismatch => "token issuer not accepted",
            AuthError::AudienceMismatch => "token audience not accepted",
            AuthError::TokenExpired => "token has expired",
            AuthError::MissingExpiry => "token has no expiry",
            AuthError::TokenNotYetValid => "token is not yet valid",
            AuthError::MissingUserId => "token missing required identity claim",
            AuthError::InvalidClaimValue => "token identity claim is not usable",
            AuthError::TypeMismatch => "token type not accepted",
            AuthError::TokenRevoked => "token has been revoked",
            AuthError::MissingJti => "token missing required id claim",
            AuthError::Config(_) => "authentication service misconfigured",
        }
    }

    /// The detailed line for the server log. The algorithm name of an
    /// unsupported-algorithm error is quoted with escapes, so it cannot
    /// inject lines into the log.
    pub fn log_message(&self) -> (m: String)
        ensures
            m@ == auth_log_message(*self),
    {
        match self {
            AuthError::Config(detail) => concat("config error: ", detail),
            AuthError::UnsupportedAlgorithm(alg) => {
                let q = debug_quote(alg.as_str());
                concat("unsupported algorithm: ", q.as_str())
            },
            AuthError::Decode(part) => concat("base64 decode failed: ", part),
            AuthError::Parse(part) => concat("json parse failed: ", part),
            other => other.message().to_owned(),
        }
    }
}

} // verus!
