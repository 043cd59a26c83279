//! Why a request is refused at hydration.
use vstd::prelude::*;

verus! {

/// Why a request is refused before it is routed.
#[derive(Debug, Clone, Copy, PartialEq, Eq, Structural)]
pub enum RequestRejectError {
    InvalidPath,
    InvalidQueryString,
    InvalidHeaders,
    InvalidMethod,
    HostSniMismatch,
    InvalidHostHeader,
}

pub open spec fn reject_message(e: RequestRejectError) -> Seq<char> {
    match e {
        RequestRejectError::InvalidPath => "invalid request path"@,
        RequestRejectError::InvalidQueryString => "invalid query string"@,
        RequestRejectError::InvalidHeaders => "invalid headers"@,
        RequestRejectError::InvalidMethod => "invalid method"@,
        RequestRejectError::HostSniMismatch => "host and SNI must match if SNI is present"@,
        RequestRejectError::InvalidHostHeader => "invalid host header"@,
    }
}

impl RequestRejectError {
    /// The error's text, as the proxy reports it.
    pub fn message(&self) -> (s: &'static str)
        ensures
            s@ == reject_message(*self),
    {
        match self {
            RequestRejectError::InvalidPath => "invalid request path",
            RequestRejectError::InvalidQueryString => "invalid query string",
            RequestRejectError::InvalidHeaders => "invalid headers",
            RequestRejectError::InvalidMethod => "invalid method",
            RequestRejectError::HostSniMismatch => "host and SNI must match if SNI is present",
            RequestRejectError::InvalidHostHeader => "invalid host header",
        }
    }
}

} // verus!
