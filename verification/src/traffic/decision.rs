//! The outcome of upstream selection.
use vstd::prelude::*;
use crate::traffic::types::UpstreamId;

verus! {

/// Why a strategy picked an upstream.
#[derive(Debug, Clone, Copy, PartialEq, Eq, Structural)]
pub enum DecisionReason {
    Failover,
    RoundRobin,
    AdmissionPressure,
    Random,
    StickyHash,
    NoStrategyDecision,
}

impl DecisionReason {
    /// The reason's name (its display text).
    pub fn as_str(&self) -> (s: &'static str)
        ensures
            s@ == decision_reason_name(*self),
    {
        match self {
            DecisionReason::Failover => "Failover",
            DecisionReason::RoundRobin => "RoundRobin",
            DecisionReason::AdmissionPressure => "AdmissionPressure",
            DecisionReason::Random => "Random",
            DecisionReason::StickyHash => "StickyHash",
            DecisionReason::NoStrategyDecision => "NoStrategyDecision",
        }
    }
}

/// The display text of a decision reason.
pub open spec fn decision_reason_name(r: DecisionReason) -> Seq<char> {
    match r {
        DecisionReason::Failover => "Failover"@,
        DecisionReason::RoundRobin => "RoundRobin"@,
        DecisionReason::AdmissionPressure => "AdmissionPressure"@,
        DecisionReason::Random => "Random"@,
        DecisionReason::StickyHash => "StickyHash"@,
        DecisionReason::NoStrategyDecision => "NoStrategyDecision"@,
    }
}

/// A selected upstream, why it was chosen, and whether its circuit started.
#[derive(Debug, Clone, Copy, PartialEq, Eq, Structural)]
pub struct TrafficDecision {
    pub upstream_id: UpstreamId,
    pub reason: DecisionReason,
    pub cb_started: bool,
}

/// The upstream a request goes to, and whether the circuit breaker
/// counted the request as started.
#[derive(Debug)]
pub struct SelectedUpstream<'a> {
    pub upstream: &'a crate::runtime::types::UpstreamRuntime,
    pub cb_started: bool,
}

} // verus!
