//! The per-request guard: counts the request in when admitted and reports
//! its outcome exactly once.
use vstd::prelude::*;
use crate::traffic::manager::{TrafficManager, success_recorded, failure_recorded};
use crate::traffic::types::{ServiceId, UpstreamId};

verus! {

/// What finishing a request leaves for the caller to do: the latency of
/// a success (for the latency average), whether a failure must force the
/// circuit open, and whether the circuit breaker must be told the outcome.
#[derive(Debug, Clone, Copy, PartialEq, Eq, Structural)]
pub struct FinishReport {
    pub reported: bool,
    pub success: bool,
    pub latency_ms: u64,
    pub trip_circuit: bool,
}

/// A request admitted to an upstream. Times are monotonic clock readings
/// in milliseconds.
#[derive(Debug)]
pub struct AdmissionGuard {
    service_id: ServiceId,
    upstream_id: UpstreamId,
    started_ms: u64,
    finished: bool,
}

impl AdmissionGuard {
    pub closed spec fn service_spec(&self) -> Seq<char> {
        self.service_id@
    }

    pub closed spec fn upstream_spec(&self) -> UpstreamId {
        self.upstream_id
    }

    pub closed spec fn started_spec(&self) -> u64 {
        self.started_ms
    }

    pub closed spec fn is_finished(&self) -> bool {
        self.finished
    }

    /// The service the request was admitted to.
    pub fn service_id(&self) -> (s: &ServiceId)
        ensures
            s@ == self.service_spec(),
    {
        &self.service_id
    }

    /// Whether the outcome has been reported.
    pub fn finished(&self) -> (b: bool)
        ensures
            b == self.is_finished(),
    {
        self.finished
    }

    /// Admits a request: the upstream's active count and total grow.
    pub fn new(tm: &mut TrafficManager, service_id: ServiceId, upstream_id: UpstreamId, now_ms: u64) -> (g: Self)
        ensures
            g.service_spec() == service_id@,
            g.upstream_spec() == upstream_id,
            g.started_spec() == now_ms,
            !g.is_finished(),
            crate::traffic::manager::only_request_counters_changed(*old(tm), *final(tm)),
            forall|k: (Seq<char>, u32)| #[trigger] final(tm).active_requests.get_spec(k) == (if k == (service_id@, upstream_id.0) {
                Some(crate::traffic::manager::bump(crate::traffic::manager::count_of(old(tm).active_requests.get_spec(k))))
            } else {
                old(tm).active_requests.get_spec(k)
            }),
    {
        tm.on_request_start(&service_id, &upstream_id);
        AdmissionGuard { service_id, upstream_id, started_ms: now_ms, finished: false }
    }

    /// Reports a success (see `finish`).
    pub fn success(&mut self, tm: &mut TrafficManager, now_ms: u64) -> (r: FinishReport)
        ensures
            final(self).is_finished(),
            r.reported == !old(self).is_finished(),
            r.reported ==> r.success && r.latency_ms == (if now_ms >= old(self).started_spec() { now_ms - old(self).started_spec() } else { 0 }),
            r.reported ==> success_recorded(*old(tm), *final(tm), old(self).service_spec(), old(self).upstream_spec().0),
            !r.trip_circuit,
            !r.reported ==> *final(tm) == *old(tm),
    {
        self.finish(tm, true, now_ms)
    }

    /// Reports a failure (see `finish`).
    pub fn failure(&mut self, tm: &mut TrafficManager, now_ms: u64) -> (r: FinishReport)
        requires
            !old(self).is_finished() ==> old(tm).health_params.get_spec(old(self).service_spec()) is Some,
        ensures
            final(self).is_finished(),
            r.reported == !old(self).is_finished(),
            r.reported ==> !r.success,
            r.reported ==> failure_recorded(*old(tm), *final(tm), old(self).service_spec(), old(self).upstream_spec().0, now_ms, r.trip_circuit),
            !r.reported ==> !r.trip_circuit,
            !r.reported ==> *final(tm) == *old(tm),
    {
        self.finish(tm, false, now_ms)
    }

    /// Reports the outcome once: a later call does nothing. A success
    /// marks the upstream healthy and counts it; a failure counts it and
    /// takes a health step, and the report says whether the circuit must be
    /// forced open. Either way the request stops being active.
    pub fn finish(&mut self, tm: &mut TrafficManager, success: bool, now_ms: u64) -> (r: FinishReport)
        requires
            !old(self).is_finished() && !success ==> old(tm).health_params.get_spec(old(self).service_spec()) is Some,
        ensures
            final(self).is_finished(),
            final(self).service_spec() == old(self).service_spec(),
            final(self).upstream_spec() == old(self).upstream_spec(),
            r.reported == !old(self).is_finished(),
            r.reported ==> r.success == success,
            r.reported && success ==> r.latency_ms == (if now_ms >= old(self).started_spec() { now_ms - old(self).started_spec() } else { 0 }),
            r.reported && success ==> success_recorded(*old(tm), *final(tm), old(self).service_spec(), old(self).upstream_spec().0),
            r.reported && !success ==> failure_recorded(*old(tm), *final(tm), old(self).service_spec(), old(self).upstream_spec().0, now_ms, r.trip_circuit),
            success || !r.reported ==> !r.trip_circuit,
            !r.reported ==> *final(tm) == *old(tm),
            r.reported ==> final(tm).snapshot == old(tm).snapshot,
            r.reported ==> forall|k: (Seq<char>, u32)| #[trigger] final(tm).active_requests.get_spec(k) == (if k == (old(self).service_spec(), old(self).upstream_spec().0) {
                match old(tm).active_requests.get_spec(k) {
                    Some(v) => Some(crate::traffic::manager::ended(v)),
                    None => None,
                }
            } else {
                old(tm).active_requests.get_spec(k)
            }),
    {
        if self.finished {
            return FinishReport { reported: false, success, latency_ms: 0, trip_circuit: false };
        }
        let mut latency_ms: u64 = 0;
        let mut trip_circuit = false;
        let ghost a0 = tm.active_requests;
        if success {
            latency_ms = now_ms.saturating_sub(self.started_ms);
            tm.report_success(&self.service_id, &self.upstream_id);
        } else {
            trip_circuit = tm.report_failure(&self.service_id, &self.upstream_id, now_ms);
        }
        assert(tm.active_requests == a0);
        tm.on_request_end(&self.service_id, &self.upstream_id);
        self.finished = true;
        FinishReport { reported: true, success, latency_ms, trip_circuit }
    }
}

} // verus!
