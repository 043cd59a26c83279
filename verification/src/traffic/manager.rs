//! Per-service and per-upstream traffic state: request counters, passive
//! health, round-robin cursors, and the parameters copied from the
//! snapshot on each reload.
use vstd::prelude::*;
use crate::traffic::store::{
    CounterTable, HealthTable, CursorTable, CircuitParamsTable, HealthParamsTable, UpstreamKey, key_view,
};
use crate::traffic::snapshot::{
    TrafficSnapshot, ServiceSnapshot, UpstreamSnapshot, CircuitBreakerConfig, HealthCheckConfig,
    has_service, has_upstream, find_service, services_distinct,
};
use crate::traffic::types::{ServiceId, UpstreamId, HealthStatus};
use crate::traffic::wrr::{WrrState, wrr_fits, total_weight_of, ids_of, swrr_step_ok, zeros};

verus! {

/// A service's circuit breaker parameters, as the breaker reads them.
#[derive(Debug, Clone, Copy)]
pub struct CircuitBreakerParams {
    pub enable_auto_recovery: bool,
    pub failure_threshold: u32,
    pub open_duration_ms: u64,
    pub half_open_max_requests: u32,
    pub success_threshold: u32,
    pub count_http_5xx_as_failure: bool,
}

/// A service's passive health check parameters.
#[derive(Debug, Clone, Copy)]
pub struct HealthCheckParams {
    pub enable: bool,
    pub failure_threshold: u64,
    pub unhealthy_cooldown_seconds: u64,
}

/// The passive health of one upstream. Times are readings of a monotonic
/// clock in milliseconds.
#[derive(Debug, Clone, Copy, PartialEq, Eq, Structural)]
pub enum HealthState {
    Healthy,
    Unhealthy { consecutive_failures: u64, last_failure_ms: u64 },
}

pub open spec fn circuit_params_of(c: CircuitBreakerConfig) -> CircuitBreakerParams {
    CircuitBreakerParams {
        enable_auto_recovery: c.enable_auto_recovery,
        failure_threshold: c.failure_threshold,
        open_duration_ms: c.open_duration_milliseconds,
        half_open_max_requests: c.half_open_max_requests,
        success_threshold: c.success_threshold,
        count_http_5xx_as_failure: c.count_http_5xx_as_failure,
    }
}

pub open spec fn health_params_of(c: HealthCheckConfig) -> HealthCheckParams {
    HealthCheckParams {
        enable: c.enable,
        failure_threshold: c.failure_threshold,
        unhealthy_cooldown_seconds: c.unhealthy_cooldown_seconds,
    }
}

/// A counter after one more event (a `u64` counter wraps).
pub open spec fn bump(v: u64) -> u64 {
    if v == u64::MAX { 0 } else { (v + 1) as u64 }
}

/// A counter's value; an absent counter reads zero.
pub open spec fn count_of(o: Option<u64>) -> u64 {
    match o {
        Some(v) => v,
        None => 0,
    }
}

/// The active count after a request ends: one less, never below zero.
pub open spec fn ended(v: u64) -> u64 {
    if v <= 1 { 0 } else { (v - 1) as u64 }
}

/// The health after a failure: a first failure starts the count at one;
/// below the threshold the count grows; at the threshold it stays there.
pub open spec fn failure_step(st: HealthState, threshold: u64, now_ms: u64) -> HealthState {
    match st {
        HealthState::Healthy => HealthState::Unhealthy { consecutive_failures: 1, last_failure_ms: now_ms },
        HealthState::Unhealthy { consecutive_failures, .. } => if consecutive_failures + 1 < threshold {
            HealthState::Unhealthy { consecutive_failures: (consecutive_failures + 1) as u64, last_failure_ms: now_ms }
        } else {
            HealthState::Unhealthy { consecutive_failures: threshold, last_failure_ms: now_ms }
        },
    }
}

/// Whether more than the cooldown has passed since `last_ms` (a clock
/// reading before `last_ms` counts as no time passed).
pub open spec fn cooled_down(now_ms: u64, last_ms: u64, cooldown_seconds: u64) -> bool {
    (if now_ms >= last_ms { now_ms - last_ms } else { 0 }) > cooldown_seconds * 1000
}

/// Whether an upstream may receive a request, given its service's health
/// parameters and its health: always with checks disabled; otherwise
/// unless it is unhealthy and its cooldown has not passed.
pub open spec fn health_reading(hp: HealthCheckParams, h: Option<HealthState>, now_ms: u64) -> bool {
    if !hp.enable {
        true
    } else {
        match h {
            Some(HealthState::Unhealthy { last_failure_ms, .. }) => cooled_down(now_ms, last_failure_ms, hp.unhealthy_cooldown_seconds),
            _ => true,
        }
    }
}

/// The candidates of a round-robin pick: each upstream's id and weight.
pub open spec fn candidates(healthy: Seq<UpstreamSnapshot>) -> Seq<(UpstreamId, u32)> {
    healthy.map_values(|u: UpstreamSnapshot| (u.endpoint.id_spec(), u.weight))
}

/// The per-service parameter tables hold exactly the parameters of the
/// snapshot's services.
pub open spec fn params_follow(snap: TrafficSnapshot, cp: CircuitParamsTable, hp: HealthParamsTable) -> bool {
    &&& forall|s: Seq<char>| #[trigger] hp.get_spec(s) == (if has_service(snap, s) {
        Some(health_params_of(find_service(snap.services@, s).unwrap().health_check_cfg))
    } else {
        None
    })
    &&& forall|s: Seq<char>| #[trigger] cp.get_spec(s) == (if has_service(snap, s) {
        Some(circuit_params_of(find_service(snap.services@, s).unwrap().circuit_breaker_cfg))
    } else {
        None
    })
}

/// The traffic state of the proxy.
#[derive(Debug)]
pub struct TrafficManager {
    pub snapshot: TrafficSnapshot,
    /// Live per-upstream request counters.
    pub active_requests: CounterTable,
    /// Per-service weighted round-robin cursors.
    pub wrr_state: CursorTable,
    /// Per-upstream passive health.
    pub upstream_health: HealthTable,
    pub total_requests: CounterTable,
    pub total_successes: CounterTable,
    pub total_failures: CounterTable,
    /// Per-service circuit breaker parameters (copied from the snapshot).
    pub circuit_params: CircuitParamsTable,
    /// Per-service health check parameters (copied from the snapshot).
    pub health_params: HealthParamsTable,
}

/// A service in a snapshot without duplicate names is found at its index.
pub proof fn lemma_find_service_at(s: Seq<ServiceSnapshot>, k: int)
    requires
        services_distinct(s),
        0 <= k < s.len(),
    ensures
        find_service(s, s[k].service_id@) == Some(s[k]),
{
    let name = s[k].service_id@;
    assert(exists|i: int| 0 <= i < s.len() && (#[trigger] s[i]).service_id@ == name);
    let c = choose|i: int| 0 <= i < s.len() && (#[trigger] s[i]).service_id@ == name;
    if c != k {
        assert(s[c].service_id@ != s[k].service_id@);
    }
}

fn upstream_key(service_id: &ServiceId, upstream_id: &UpstreamId) -> (k: UpstreamKey)
    ensures
        key_view(k) == (service_id@, upstream_id.0),
{
    (service_id.copy_key(), *upstream_id)
}

fn params_from_circuit_cfg(c: &CircuitBreakerConfig) -> (p: CircuitBreakerParams)
    ensures
        p == circuit_params_of(*c),
{
    CircuitBreakerParams {
        enable_auto_recovery: c.enable_auto_recovery,
        failure_threshold: c.failure_threshold,
        open_duration_ms: c.open_duration_milliseconds,
        half_open_max_requests: c.half_open_max_requests,
        success_threshold: c.success_threshold,
        count_http_5xx_as_failure: c.count_http_5xx_as_failure,
    }
}

fn params_from_health_cfg(c: &HealthCheckConfig) -> (p: HealthCheckParams)
    ensures
        p == health_params_of(*c),
{
    HealthCheckParams {
        enable: c.enable,
        failure_threshold: c.failure_threshold,
        unhealthy_cooldown_seconds: c.unhealthy_cooldown_seconds,
    }
}

fn bumped(v: u64) -> (r: u64)
    ensures
        r == bump(v),
{
    if v == u64::MAX { 0 } else { v + 1 }
}

impl TrafficManager {
    /// The manager's invariant: the snapshot names each service once, the
    /// parameter tables follow the snapshot, and every cursor is sound.
    pub open spec fn wf(&self) -> bool {
        &&& self.snapshot.wf()
        &&& params_follow(self.snapshot, self.circuit_params, self.health_params)
        &&& forall|s: Seq<char>| #[trigger] self.wrr_state.get_spec(s) matches Some(w) ==> w.wf()
    }

    /// A manager for an initial snapshot, with no counters or health yet.
    pub fn new(initial: TrafficSnapshot) -> (tm: Self)
        requires
            initial.wf(),
        ensures
            tm.wf(),
            tm.snapshot == initial,
            forall|k: (Seq<char>, u32)| #[trigger] tm.active_requests.get_spec(k) is None,
            forall|k: (Seq<char>, u32)| #[trigger] tm.upstream_health.get_spec(k) is None,
            forall|k: (Seq<char>, u32)| #[trigger] tm.total_requests.get_spec(k) is None,
            forall|k: (Seq<char>, u32)| #[trigger] tm.total_successes.get_spec(k) is None,
            forall|k: (Seq<char>, u32)| #[trigger] tm.total_failures.get_spec(k) is None,
            forall|s: Seq<char>| #[trigger] tm.wrr_state.get_spec(s) is None,
    {
        let empty = TrafficSnapshot { services: Vec::new() };
        let mut tm = TrafficManager {
            snapshot: empty,
            active_requests: CounterTable::new(),
            wrr_state: CursorTable::new(),
            upstream_health: HealthTable::new(),
            total_requests: CounterTable::new(),
            total_successes: CounterTable::new(),
            total_failures: CounterTable::new(),
            circuit_params: CircuitParamsTable::new(),
            health_params: HealthParamsTable::new(),
        };
        proof {
            assert forall|s: Seq<char>| !has_service(tm.snapshot, s) by {}
        }
        tm.update(initial);
        tm
    }

    /// The current snapshot.
    pub fn snapshot(&self) -> (s: &TrafficSnapshot)
        ensures
            *s == self.snapshot,
    {
        &self.snapshot
    }

    /// Installs a new snapshot. State kept per upstream survives only for
    /// upstreams the new snapshot still has; cursors only for services it
    /// still has; the parameter tables are rebuilt from its services.
    pub fn update(&mut self, new_snapshot: TrafficSnapshot)
        requires
            old(self).wf(),
            new_snapshot.wf(),
        ensures
            final(self).wf(),
            final(self).snapshot == new_snapshot,
            forall|k: (Seq<char>, u32)| #[trigger] final(self).active_requests.get_spec(k)
                == (if has_upstream(new_snapshot, k.0, k.1) { old(self).active_requests.get_spec(k) } else { None }),
            forall|k: (Seq<char>, u32)| #[trigger] final(self).upstream_health.get_spec(k)
                == (if has_upstream(new_snapshot, k.0, k.1) { old(self).upstream_health.get_spec(k) } else { None }),
            forall|k: (Seq<char>, u32)| #[trigger] final(self).total_requests.get_spec(k)
                == (if has_upstream(new_snapshot, k.0, k.1) { old(self).total_requests.get_spec(k) } else { None }),
            forall|k: (Seq<char>, u32)| #[trigger] final(self).total_successes.get_spec(k)
                == (if has_upstream(new_snapshot, k.0, k.1) { old(self).total_successes.get_spec(k) } else { None }),
            forall|k: (Seq<char>, u32)| #[trigger] final(self).total_failures.get_spec(k)
                == (if has_upstream(new_snapshot, k.0, k.1) { old(self).total_failures.get_spec(k) } else { None }),
            forall|s: Seq<char>| #[trigger] final(self).wrr_state.get_spec(s)
                == (if has_service(new_snapshot, s) { old(self).wrr_state.get_spec(s) } else { None }),
    {
        let snap = &new_snapshot;
        self.wrr_state.retain_services_of(snap);
        self.active_requests.retain_upstreams_of(snap);
        self.upstream_health.retain_upstreams_of(snap);
        self.total_requests.retain_upstreams_of(snap);
        self.total_successes.retain_upstreams_of(snap);
        self.total_failures.retain_upstreams_of(snap);
        self.circuit_params.retain_services_of(snap);
        self.health_params.retain_services_of(snap);
        let ghost hp0 = self.health_params;
        let ghost cp0 = self.circuit_params;
        let ghost mid = *self;
        let mut i: usize = 0;
        while i < snap.services.len()
            invariant
                snap.wf(),
                i <= snap.services.len(),
                self.active_requests == mid.active_requests,
                self.upstream_health == mid.upstream_health,
                self.total_requests == mid.total_requests,
                self.total_successes == mid.total_successes,
                self.total_failures == mid.total_failures,
                self.wrr_state == mid.wrr_state,
                forall|s: Seq<char>| #[trigger] hp0.get_spec(s) is Some ==> has_service(*snap, s),
                forall|s: Seq<char>| #[trigger] cp0.get_spec(s) is Some ==> has_service(*snap, s),
                forall|s: Seq<char>| #[trigger] self.health_params.get_spec(s) == (
                    if exists|k: int| 0 <= k < i && (#[trigger] snap.services@[k]).service_id@ == s {
                        Some(health_params_of(find_service(snap.services@, s).unwrap().health_check_cfg))
                    } else {
                        hp0.get_spec(s)
                    }),
                forall|s: Seq<char>| #[trigger] self.circuit_params.get_spec(s) == (
                    if exists|k: int| 0 <= k < i && (#[trigger] snap.services@[k]).service_id@ == s {
                        Some(circuit_params_of(find_service(snap.services@, s).unwrap().circuit_breaker_cfg))
                    } else {
                        cp0.get_spec(s)
                    }),
            decreases snap.services.len() - i,
        {
            let svc = &snap.services[i];
            let ghost n = svc.service_id@;
            proof {
                lemma_find_service_at(snap.services@, i as int);
            }
            let cp = params_from_circuit_cfg(&svc.circuit_breaker_cfg);
            self.circuit_params.insert(svc.service_id.copy_key(), cp);
            let hp = params_from_health_cfg(&svc.health_check_cfg);
            self.health_params.insert(svc.service_id.copy_key(), hp);
            proof {
                assert forall|s: Seq<char>| #[trigger] self.health_params.get_spec(s) == (
                    if exists|k: int| 0 <= k < i + 1 && (#[trigger] snap.services@[k]).service_id@ == s {
                        Some(health_params_of(find_service(snap.services@, s).unwrap().health_check_cfg))
                    } else {
                        hp0.get_spec(s)
                    }) by {
                    if s == n {
                        assert(snap.services@[i as int].service_id@ == s);
                    } else {
                        if exists|k: int| 0 <= k < i + 1 && (#[trigger] snap.services@[k]).service_id@ == s {
                            let k = choose|k: int| 0 <= k < i + 1 && (#[trigger] snap.services@[k]).service_id@ == s;
                            assert(k < i);
                        }
                    }
                }
                assert forall|s: Seq<char>| #[trigger] self.circuit_params.get_spec(s) == (
                    if exists|k: int| 0 <= k < i + 1 && (#[trigger] snap.services@[k]).service_id@ == s {
                        Some(circuit_params_of(find_service(snap.services@, s).unwrap().circuit_breaker_cfg))
                    } else {
                        cp0.get_spec(s)
                    }) by {
                    if s == n {
                        assert(snap.services@[i as int].service_id@ == s);
                    } else {
                        if exists|k: int| 0 <= k < i + 1 && (#[trigger] snap.services@[k]).service_id@ == s {
                            let k = choose|k: int| 0 <= k < i + 1 && (#[trigger] snap.services@[k]).service_id@ == s;
                            assert(k < i);
                        }
                    }
                }
            }
            i = i + 1;
        }
        self.snapshot = new_snapshot;
    }
}


/// Everything but the active counters and request totals is unchanged.
pub open spec fn only_request_counters_changed(a: TrafficManager, b: TrafficManager) -> bool {
    &&& a.snapshot == b.snapshot
    &&& a.wrr_state == b.wrr_state
    &&& a.upstream_health == b.upstream_health
    &&& a.total_successes == b.total_successes
    &&& a.total_failures == b.total_failures
    &&& a.circuit_params == b.circuit_params
    &&& a.health_params == b.health_params
}

impl TrafficManager {
    /// A request to the upstream starts: its active count and its total
    /// grow by one.
    pub fn on_request_start(&mut self, service_id: &ServiceId, upstream_id: &UpstreamId)
        ensures
            only_request_counters_changed(*old(self), *final(self)),
            forall|k: (Seq<char>, u32)| #[trigger] final(self).active_requests.get_spec(k) == (if k == (service_id@, upstream_id.0) {
                Some(bump(count_of(old(self).active_requests.get_spec(k))))
            } else {
                old(self).active_requests.get_spec(k)
            }),
            forall|k: (Seq<char>, u32)| #[trigger] final(self).total_requests.get_spec(k) == (if k == (service_id@, upstream_id.0) {
                Some(bump(count_of(old(self).total_requests.get_spec(k))))
            } else {
                old(self).total_requests.get_spec(k)
            }),
    {
        let key = upstream_key(service_id, upstream_id);
        let active = match self.active_requests.get(&key) {
            Some(v) => v,
            None => 0,
        };
        self.active_requests.insert(upstream_key(service_id, upstream_id), bumped(active));
        let total = match self.total_requests.get(&key) {
            Some(v) => v,
            None => 0,
        };
        self.total_requests.insert(key, bumped(total));
    }

    /// A request to the upstream ends: its active count drops by one, never
    /// below zero; an upstream without a count keeps none.
    pub fn on_request_end(&mut self, service_id: &ServiceId, upstream_id: &UpstreamId)
        ensures
            only_request_counters_changed(*old(self), *final(self)),
            final(self).total_requests == old(self).total_requests,
            forall|k: (Seq<char>, u32)| #[trigger] final(self).active_requests.get_spec(k) == (if k == (service_id@, upstream_id.0) {
                match old(self).active_requests.get_spec(k) {
                    Some(v) => Some(ended(v)),
                    None => None,
                }
            } else {
                old(self).active_requests.get_spec(k)
            }),
    {
        let key = upstream_key(service_id, upstream_id);
        let current = self.active_requests.get(&key);
        if let Some(prev) = current {
            let next = if prev <= 1 { 0 } else { prev - 1 };
            self.active_requests.insert(key, next);
        }
    }

    /// The requests in flight to the upstream (zero when none was counted).
    pub fn active_requests(&self, service_id: &ServiceId, upstream_id: &UpstreamId) -> (n: u64)
        ensures
            n == count_of(self.active_requests.get_spec((service_id@, upstream_id.0))),
    {
        let key = upstream_key(service_id, upstream_id);
        match self.active_requests.get(&key) {
            Some(v) => v,
            None => 0,
        }
    }

    /// Requests started to the upstream.
    pub fn total_requests(&self, service_id: &ServiceId, upstream_id: &UpstreamId) -> (n: u64)
        ensures
            n == count_of(self.total_requests.get_spec((service_id@, upstream_id.0))),
    {
        let key = upstream_key(service_id, upstream_id);
        match self.total_requests.get(&key) {
            Some(v) => v,
            None => 0,
        }
    }

    /// Requests to the upstream that succeeded.
    pub fn total_successes(&self, service_id: &ServiceId, upstream_id: &UpstreamId) -> (n: u64)
        ensures
            n == count_of(self.total_successes.get_spec((service_id@, upstream_id.0))),
    {
        let key = upstream_key(service_id, upstream_id);
        match self.total_successes.get(&key) {
            Some(v) => v,
            None => 0,
        }
    }

    /// Requests to the upstream that failed.
    pub fn total_failures(&self, service_id: &ServiceId, upstream_id: &UpstreamId) -> (n: u64)
        ensures
            n == count_of(self.total_failures.get_spec((service_id@, upstream_id.0))),
    {
        let key = upstream_key(service_id, upstream_id);
        match self.total_failures.get(&key) {
            Some(v) => v,
            None => 0,
        }
    }
}


/// Only the health table and the failure totals may differ.
pub open spec fn only_health_changed(a: TrafficManager, b: TrafficManager) -> bool {
    &&& a.snapshot == b.snapshot
    &&& a.wrr_state == b.wrr_state
    &&& a.active_requests == b.active_requests
    &&& a.total_requests == b.total_requests
    &&& a.circuit_params == b.circuit_params
    &&& a.health_params == b.health_params
}

/// What recording a success on the upstream `(s, u)` does, leaving the
/// active counts aside: the upstream is healthy again and its success total
/// grows by one; the failure and request totals, the parameters, the
/// cursors and the snapshot stay.
pub open spec fn success_recorded(a: TrafficManager, b: TrafficManager, s: Seq<char>, u: u32) -> bool {
    &&& b.snapshot == a.snapshot
    &&& b.wrr_state == a.wrr_state
    &&& b.total_requests == a.total_requests
    &&& b.total_failures == a.total_failures
    &&& b.circuit_params == a.circuit_params
    &&& b.health_params == a.health_params
    &&& forall|k: (Seq<char>, u32)| #[trigger] b.upstream_health.get_spec(k)
        == (if k == (s, u) { Some(HealthState::Healthy) } else { a.upstream_health.get_spec(k) })
    &&& forall|k: (Seq<char>, u32)| #[trigger] b.total_successes.get_spec(k) == (if k == (s, u) {
        Some(bump(count_of(a.total_successes.get_spec(k))))
    } else {
        a.total_successes.get_spec(k)
    })
}

/// What recording a failure on the upstream `(s, u)` at `now_ms` does,
/// leaving the active counts aside: its failure total grows by one; with
/// health checks enabled for the service its health takes a failure step,
/// and `trip` says whether it reached the threshold while the service has
/// circuit breaker parameters; with them disabled the health stays and
/// `trip` is false. The success and request totals, the parameters, the
/// cursors and the snapshot stay.
pub open spec fn failure_recorded(a: TrafficManager, b: TrafficManager, s: Seq<char>, u: u32, now_ms: u64, trip: bool) -> bool {
    &&& b.snapshot == a.snapshot
    &&& b.wrr_state == a.wrr_state
    &&& b.total_requests == a.total_requests
    &&& b.total_successes == a.total_successes
    &&& b.circuit_params == a.circuit_params
    &&& b.health_params == a.health_params
    &&& forall|k: (Seq<char>, u32)| #[trigger] b.total_failures.get_spec(k) == (if k == (s, u) {
        Some(bump(count_of(a.total_failures.get_spec(k))))
    } else {
        a.total_failures.get_spec(k)
    })
    &&& ({
        let hp = a.health_params.get_spec(s).unwrap();
        let prev = match a.upstream_health.get_spec((s, u)) {
            Some(h) => h,
            None => HealthState::Healthy,
        };
        let next = failure_step(prev, hp.failure_threshold, now_ms);
        if hp.enable {
            &&& forall|k: (Seq<char>, u32)| #[trigger] b.upstream_health.get_spec(k)
                == (if k == (s, u) { Some(next) } else { a.upstream_health.get_spec(k) })
            &&& trip == (next matches HealthState::Unhealthy { consecutive_failures, .. }
                && consecutive_failures >= hp.failure_threshold
                && a.circuit_params.get_spec(s) is Some)
        } else {
            &&& b.upstream_health == a.upstream_health
            &&& !trip
        }
    })
}

impl TrafficManager {
    /// A request to the upstream failed. The failure total grows by one.
    /// With health checks enabled for the service, the upstream's health
    /// takes a failure step (`failure_step`, an absent health counting as
    /// healthy). The result says whether the circuit must be forced open:
    /// the upstream reached the failure threshold and the service has
    /// circuit breaker parameters.
    pub fn report_failure(&mut self, service_id: &ServiceId, upstream_id: &UpstreamId, now_ms: u64) -> (trip: bool)
        requires
            old(self).health_params.get_spec(service_id@) is Some,
        ensures
            only_health_changed(*old(self), *final(self)),
            final(self).total_successes == old(self).total_successes,
            forall|k: (Seq<char>, u32)| #[trigger] final(self).total_failures.get_spec(k) == (if k == (service_id@, upstream_id.0) {
                Some(bump(count_of(old(self).total_failures.get_spec(k))))
            } else {
                old(self).total_failures.get_spec(k)
            }),
            ({
                let hp = old(self).health_params.get_spec(service_id@).unwrap();
                let key = (service_id@, upstream_id.0);
                let prev = match old(self).upstream_health.get_spec(key) {
                    Some(h) => h,
                    None => HealthState::Healthy,
                };
                let next = failure_step(prev, hp.failure_threshold, now_ms);
                if hp.enable {
                    &&& forall|k: (Seq<char>, u32)| #[trigger] final(self).upstream_health.get_spec(k)
                        == (if k == key { Some(next) } else { old(self).upstream_health.get_spec(k) })
                    &&& trip == (next matches HealthState::Unhealthy { consecutive_failures, .. }
                        && consecutive_failures >= hp.failure_threshold
                        && old(self).circuit_params.get_spec(service_id@) is Some)
                } else {
                    &&& final(self).upstream_health == old(self).upstream_health
                    &&& !trip
                }
            }),
    {
        let hp = self.health_params.get(service_id).unwrap();
        let key = upstream_key(service_id, upstream_id);
        let failures = match self.total_failures.get(&key) {
            Some(v) => v,
            None => 0,
        };
        self.total_failures.insert(upstream_key(service_id, upstream_id), bumped(failures));
        if !hp.enable {
            return false;
        }
        let prev = match self.upstream_health.get(&key) {
            Some(h) => h,
            None => HealthState::Healthy,
        };
        let next = match prev {
            HealthState::Healthy => HealthState::Unhealthy { consecutive_failures: 1, last_failure_ms: now_ms },
            HealthState::Unhealthy { consecutive_failures, .. } => {
                if consecutive_failures < u64::MAX && consecutive_failures + 1 < hp.failure_threshold {
                    HealthState::Unhealthy { consecutive_failures: consecutive_failures + 1, last_failure_ms: now_ms }
                } else {
                    HealthState::Unhealthy { consecutive_failures: hp.failure_threshold, last_failure_ms: now_ms }
                }
            },
        };
        self.upstream_health.insert(key, next);
        match next {
            HealthState::Unhealthy { consecutive_failures, .. } => {
                consecutive_failures >= hp.failure_threshold && self.circuit_params.get(service_id).is_some()
            },
            HealthState::Healthy => false,
        }
    }

    /// A request to the upstream succeeded: the upstream is healthy again
    /// and its success total grows by one.
    pub fn report_success(&mut self, service_id: &ServiceId, upstream_id: &UpstreamId)
        ensures
            only_health_changed(*old(self), *final(self)),
            final(self).total_failures == old(self).total_failures,
            forall|k: (Seq<char>, u32)| #[trigger] final(self).upstream_health.get_spec(k)
                == (if k == (service_id@, upstream_id.0) { Some(HealthState::Healthy) } else { old(self).upstream_health.get_spec(k) }),
            forall|k: (Seq<char>, u32)| #[trigger] final(self).total_successes.get_spec(k) == (if k == (service_id@, upstream_id.0) {
                Some(bump(count_of(old(self).total_successes.get_spec(k))))
            } else {
                old(self).total_successes.get_spec(k)
            }),
    {
        let key = upstream_key(service_id, upstream_id);
        self.upstream_health.insert(upstream_key(service_id, upstream_id), HealthState::Healthy);
        let successes = match self.total_successes.get(&key) {
            Some(v) => v,
            None => 0,
        };
        self.total_successes.insert(key, bumped(successes));
    }

    /// Whether the upstream may receive a request. With health checks
    /// disabled, always. Otherwise a healthy or never-seen upstream may;
    /// an unhealthy one may only once its cooldown has passed, and is then
    /// put on trial: its failure count is set to the threshold, so one more
    /// failure makes it unhealthy again, and its last failure to now.
    pub fn health_status(&mut self, service_id: &ServiceId, upstream_id: &UpstreamId, now_ms: u64) -> (h: HealthStatus)
        requires
            old(self).health_params.get_spec(service_id@) is Some,
        ensures
            only_health_changed(*old(self), *final(self)),
            final(self).total_successes == old(self).total_successes,
            final(self).total_failures == old(self).total_failures,
            h.healthy == health_reading(old(self).health_params.get_spec(service_id@).unwrap(),
                old(self).upstream_health.get_spec((service_id@, upstream_id.0)), now_ms),
            ({
                let hp = old(self).health_params.get_spec(service_id@).unwrap();
                let key = (service_id@, upstream_id.0);
                if !hp.enable {
                    h.healthy && final(self).upstream_health == old(self).upstream_health
                } else {
                    match old(self).upstream_health.get_spec(key) {
                        Some(HealthState::Unhealthy { last_failure_ms, .. }) => if cooled_down(now_ms, last_failure_ms, hp.unhealthy_cooldown_seconds) {
                            &&& h.healthy
                            &&& forall|k: (Seq<char>, u32)| #[trigger] final(self).upstream_health.get_spec(k) == (if k == key {
                                Some(HealthState::Unhealthy { consecutive_failures: hp.failure_threshold, last_failure_ms: now_ms })
                            } else {
                                old(self).upstream_health.get_spec(k)
                            })
                        } else {
                            !h.healthy && final(self).upstream_health == old(self).upstream_health
                        },
                        _ => h.healthy && final(self).upstream_health == old(self).upstream_health,
                    }
                }
            }),
    {
        let hp = self.health_params.get(service_id).unwrap();
        if !hp.enable {
            return HealthStatus { healthy: true };
        }
        let key = upstream_key(service_id, upstream_id);
        let current = self.upstream_health.get(&key);
        let healthy = match current {
            Some(HealthState::Unhealthy { last_failure_ms, .. }) => {
                let elapsed = now_ms.saturating_sub(last_failure_ms);
                let cooldown_ms = (hp.unhealthy_cooldown_seconds as u128) * 1000;
                if (elapsed as u128) > cooldown_ms {
                    self.upstream_health.insert(
                        key,
                        HealthState::Unhealthy { consecutive_failures: hp.failure_threshold, last_failure_ms: now_ms },
                    );
                    true
                } else {
                    false
                }
            },
            _ => true,
        };
        HealthStatus { healthy }
    }

    /// Picks the next upstream of the service among `healthy` by smooth
    /// weighted round robin. The service's cursor is created fresh when it
    /// has none, and reset when the candidates' ids or total weight
    /// changed (`WrrState::base_for`).
    pub fn next_wrr_index(&mut self, service_id: &ServiceId, healthy: &Vec<UpstreamSnapshot>) -> (b: usize)
        requires
            old(self).wf(),
            healthy@.len() > 0,
            wrr_fits(candidates(healthy@)),
        ensures
            final(self).wf(),
            b < healthy@.len(),
            final(self).snapshot == old(self).snapshot,
            final(self).active_requests == old(self).active_requests,
            final(self).upstream_health == old(self).upstream_health,
            final(self).total_requests == old(self).total_requests,
            final(self).total_successes == old(self).total_successes,
            final(self).total_failures == old(self).total_failures,
            final(self).circuit_params == old(self).circuit_params,
            final(self).health_params == old(self).health_params,
            forall|s: Seq<char>| s != service_id@ ==> #[trigger] final(self).wrr_state.get_spec(s) == old(self).wrr_state.get_spec(s),
            final(self).wrr_state.get_spec(service_id@) matches Some(w) && ({
                let c = candidates(healthy@);
                let base = match old(self).wrr_state.get_spec(service_id@) {
                    Some(prev) => prev.base_for(c),
                    None => zeros(c.len()),
                };
                &&& swrr_step_ok(base, c, b as int, w.weights_spec())
                &&& w.ids_spec() == ids_of(c)
                &&& w.total_spec() == total_weight_of(c)
            }),
    {
        let mut cands: Vec<(UpstreamId, u32)> = Vec::new();
        let mut i: usize = 0;
        while i < healthy.len()
            invariant
                i <= healthy.len(),
                cands@ == candidates(healthy@).take(i as int),
            decreases healthy.len() - i,
        {
            cands.push((healthy[i].endpoint.id(), healthy[i].weight));
            i = i + 1;
            assert(cands@ =~= candidates(healthy@).take(i as int));
        }
        assert(candidates(healthy@).take(healthy.len() as int) =~= candidates(healthy@));
        let ghost prev = self.wrr_state.get_spec(service_id@);
        let mut state = match self.wrr_state.take(service_id) {
            Some(w) => w,
            None => {
                let f = WrrState::fresh(&cands);
                assert(f.base_for(cands@) == zeros(cands@.len()));
                f
            },
        };
        let b = state.next_index(&cands);
        let ghost w = state;
        self.wrr_state.insert(service_id.copy_key(), state);
        assert(self.wrr_state.get_spec(service_id@) == Some(w));
        b
    }
}


/// The state of an upstream's circuit breaker.
#[derive(Debug, Clone, Copy, PartialEq, Eq, Structural)]
pub enum CircuitState {
    Closed,
    Open,
    HalfOpen,
}

/// The circuit breaker parameters as the admin API shows them.
#[derive(Debug, Clone, Copy, PartialEq, Eq, Structural)]
pub struct CircuitBreakerParamsView {
    pub enabled: bool,
    pub failure_threshold: u32,
    pub open_duration_milliseconds: u64,
    pub half_open_max_requests: u32,
    pub success_threshold: u32,
    pub count_http_5xx_as_failure: bool,
}

/// The live state of a circuit breaker as the admin API shows it.
#[derive(Debug, Clone)]
pub struct CircuitBreakerDetailsView {
    pub consecutive_failures: u32,
    pub opened_at_rfc3339: Option<String>,
    pub half_open_in_flight: u32,
    pub half_open_successes: u32,
}

/// One upstream as the admin API shows it.
#[derive(Debug, Clone)]
pub struct AdminUpstreamView {
    pub endpoint: String,
    pub weight: u32,
    pub latency_ms: Option<u64>,
    pub health: HealthStatus,
    pub circuit: CircuitState,
    pub active_requests: u64,
    pub total_requests: u64,
    pub total_successes: u64,
    pub total_failures: u64,
    pub circuit_params: Option<CircuitBreakerParamsView>,
    pub circuit_details: Option<CircuitBreakerDetailsView>,
}

pub open spec fn params_view_of(p: CircuitBreakerParams) -> CircuitBreakerParamsView {
    CircuitBreakerParamsView {
        enabled: p.enable_auto_recovery,
        failure_threshold: p.failure_threshold,
        open_duration_milliseconds: p.open_duration_ms,
        half_open_max_requests: p.half_open_max_requests,
        success_threshold: p.success_threshold,
        count_http_5xx_as_failure: p.count_http_5xx_as_failure,
    }
}

impl CircuitBreakerParamsView {
    pub fn from_params(p: &CircuitBreakerParams) -> (v: Self)
        ensures
            v == params_view_of(*p),
    {
        CircuitBreakerParamsView {
            enabled: p.enable_auto_recovery,
            failure_threshold: p.failure_threshold,
            open_duration_milliseconds: p.open_duration_ms,
            half_open_max_requests: p.half_open_max_requests,
            success_threshold: p.success_threshold,
            count_http_5xx_as_failure: p.count_http_5xx_as_failure,
        }
    }
}

impl TrafficManager {
    /// The admin view of one upstream. Health is read as `health_status`
    /// reads it (so a cooled-down upstream is put on trial). Totals, circuit
    /// parameters and circuit details are shown only with details; the
    /// circuit is `Closed` when the upstream has no breaker yet (`circuit`
    /// is the breaker's state and details, if it has one).
    pub fn get_upstream_view(
        &mut self,
        service_id: &ServiceId,
        upstream: &UpstreamSnapshot,
        endpoint_label: &str,
        include_details: bool,
        now_ms: u64,
        circuit: Option<(CircuitState, CircuitBreakerDetailsView)>,
    ) -> (v: AdminUpstreamView)
        requires
            old(self).health_params.get_spec(service_id@) is Some,
        ensures
            only_health_changed(*old(self), *final(self)),
            final(self).total_successes == old(self).total_successes,
            final(self).total_failures == old(self).total_failures,
            v.endpoint@ == endpoint_label@,
            v.weight == upstream.weight,
            v.latency_ms == upstream.latency_ms,
            v.health.healthy == health_reading(old(self).health_params.get_spec(service_id@).unwrap(),
                old(self).upstream_health.get_spec((service_id@, upstream.endpoint.id_spec().0)), now_ms),
            v.active_requests == count_of(old(self).active_requests.get_spec((service_id@, upstream.endpoint.id_spec().0))),
            include_details ==> v.total_requests == count_of(old(self).total_requests.get_spec((service_id@, upstream.endpoint.id_spec().0))),
            include_details ==> v.total_successes == count_of(old(self).total_successes.get_spec((service_id@, upstream.endpoint.id_spec().0))),
            include_details ==> v.total_failures == count_of(old(self).total_failures.get_spec((service_id@, upstream.endpoint.id_spec().0))),
            !include_details ==> v.total_requests == 0 && v.total_successes == 0 && v.total_failures == 0,
            v.circuit_params == (if include_details {
                match old(self).circuit_params.get_spec(service_id@) {
                    Some(p) => Some(params_view_of(p)),
                    None => None,
                }
            } else {
                None
            }),
            v.circuit == (match circuit {
                Some((st, _)) => st,
                None => CircuitState::Closed,
            }),
            v.circuit_details == (match circuit {
                Some((_, d)) => if include_details { Some(d) } else { None },
                None => None,
            }),
    {
        let upstream_id = upstream.endpoint.id();
        let health = self.health_status(service_id, &upstream_id, now_ms);
        let active_requests = self.active_requests(service_id, &upstream_id);
        let (total_requests, total_successes, total_failures) = if include_details {
            (
                self.total_requests(service_id, &upstream_id),
                self.total_successes(service_id, &upstream_id),
                self.total_failures(service_id, &upstream_id),
            )
        } else {
            (0, 0, 0)
        };
        let circuit_params = if include_details {
            match self.circuit_params.get(service_id) {
                Some(p) => Some(CircuitBreakerParamsView::from_params(&p)),
                None => None,
            }
        } else {
            None
        };
        let (circuit_state, circuit_details) = match circuit {
            Some((st, details)) => (st, if include_details { Some(details) } else { None }),
            None => (CircuitState::Closed, None),
        };
        AdminUpstreamView {
            endpoint: endpoint_label.to_owned(),
            weight: upstream.weight,
            latency_ms: upstream.latency_ms,
            health,
            circuit: circuit_state,
            active_requests,
            total_requests,
            total_successes,
            total_failures,
            circuit_params,
            circuit_details,
        }
    }
}


/// A request that starts and then ends leaves the upstream's active count
/// as it was (short of a wrapped counter).
pub proof fn law_request_start_then_end_restores_active(prev: Option<u64>)
    requires
        count_of(prev) < u64::MAX,
    ensures
        ended(bump(count_of(prev))) == count_of(prev),
{
}

/// The health after `n` failures from `st`, the last at `now_ms`.
pub open spec fn after_failures(st: HealthState, threshold: u64, n: nat, now_ms: u64) -> HealthState
    decreases n,
{
    if n == 0 {
        st
    } else {
        failure_step(after_failures(st, threshold, (n - 1) as nat, now_ms), threshold, now_ms)
    }
}

/// From health, `n` failures count `n` up to the threshold and stay there.
pub proof fn law_failures_count_up_to_threshold(threshold: u64, n: nat, now_ms: u64)
    requires
        threshold >= 1,
        n >= 1,
    ensures
        after_failures(HealthState::Healthy, threshold, n, now_ms) == (HealthState::Unhealthy {
            consecutive_failures: if n < threshold { n as u64 } else { threshold },
            last_failure_ms: now_ms,
        }),
    decreases n,
{
    if n > 1 {
        law_failures_count_up_to_threshold(threshold, (n - 1) as nat, now_ms);
        let prev = after_failures(HealthState::Healthy, threshold, (n - 1) as nat, now_ms);
        assert(after_failures(HealthState::Healthy, threshold, n, now_ms) == failure_step(prev, threshold, now_ms));
        if n - 1 < threshold {
            assert(prev == (HealthState::Unhealthy { consecutive_failures: (n - 1) as u64, last_failure_ms: now_ms }));
        }
    } else {
        assert(after_failures(HealthState::Healthy, threshold, 0, now_ms) == HealthState::Healthy);
        assert(after_failures(HealthState::Healthy, threshold, 1, now_ms)
            == failure_step(HealthState::Healthy, threshold, now_ms));
    }
}

/// An upstream put on trial after its cooldown is back at the threshold
/// with its next failure, so that failure forces its circuit open again.
pub proof fn law_failure_on_trial_reaches_threshold(threshold: u64, trial_ms: u64, now_ms: u64)
    ensures
        failure_step(HealthState::Unhealthy { consecutive_failures: threshold, last_failure_ms: trial_ms }, threshold, now_ms)
            == (HealthState::Unhealthy { consecutive_failures: threshold, last_failure_ms: now_ms }),
{
}

/// An unhealthy upstream may not receive requests until more than its
/// cooldown has passed since its last failure; then it may.
pub proof fn law_unhealthy_waits_out_the_cooldown(hp: HealthCheckParams, failures: u64, last_ms: u64, now_ms: u64)
    requires
        hp.enable,
    ensures
        health_reading(hp, Some(HealthState::Unhealthy { consecutive_failures: failures, last_failure_ms: last_ms }), now_ms)
            <==> now_ms >= last_ms && now_ms - last_ms > hp.unhealthy_cooldown_seconds * 1000,
{
}

} // verus!
