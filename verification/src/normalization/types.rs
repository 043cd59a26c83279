//! Outcomes of a normalization step.
use vstd::prelude::*;

verus! {

/// What a normalizer decided about one request component.
#[allow(inconsistent_fields)]
#[derive(Debug)]
pub enum NormalizationOutcome<T> {
    /// Already canonical; the value is the canonical form.
    Accept(T),
    /// Canonicalized; `value` is the canonical form.
    Rewrite { value: T, reason: RewriteReason },
    /// Invalid or dangerous input.
    Reject { reason: RejectReason },
}

/// Why a component was rejected.
#[derive(Debug, Clone, Copy, PartialEq, Eq, Structural)]
pub enum RejectReason {
    InvalidUtf8,
    PathTraversal,
    InvalidPercentEncoding,
    InvalidQueryEncoding,
    HeaderEncodingViolation,
    HopByHopHeader,
    RequestSmugglingAttempt,
}

/// Why a component was rewritten.
#[derive(Debug, Clone, Copy, PartialEq, Eq, Structural)]
pub enum RewriteReason {
    PathCanonicalization,
    QueryCanonicalization,
    HeaderCanonicalization,
    PercentDecodeUnreserved,
}

/// Which header rules apply.
#[derive(Debug, Clone, Copy, PartialEq, Eq, Structural)]
pub enum ProtocolNormalizationMode {
    Http1,
    Http2,
}

impl<T> NormalizationOutcome<T> {
    /// A rejection for an encoding violation in a header.
    pub fn reject_for_header_encoding_violation() -> (r: Self)
        ensures
            r == (NormalizationOutcome::<T>::Reject { reason: RejectReason::HeaderEncodingViolation }),
    {
        NormalizationOutcome::Reject { reason: RejectReason::HeaderEncodingViolation }
    }

    /// A rejection for a request smuggling attempt.
    pub fn reject_for_smuggling_attempt() -> (r: Self)
        ensures
            r == (NormalizationOutcome::<T>::Reject { reason: RejectReason::RequestSmugglingAttempt }),
    {
        NormalizationOutcome::Reject { reason: RejectReason::RequestSmugglingAttempt }
    }

    /// The canonical value, if the outcome is not a rejection.
    pub open spec fn value_spec(self) -> Option<T> {
        match self {
            NormalizationOutcome::Accept(v) => Some(v),
            NormalizationOutcome::Rewrite { value, .. } => Some(value),
            NormalizationOutcome::Reject { .. } => None,
        }
    }
}

} // verus!
