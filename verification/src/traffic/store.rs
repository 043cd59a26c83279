//! The per-service and per-upstream state of the traffic manager, kept in
//! concurrent maps. Upstream state is keyed by service and upstream id,
//! service state by service name; two keys are the same key when their
//! names and ids are equal.
use vstd::prelude::*;
use dashmap::DashMap;
use crate::traffic::types::{ServiceId, UpstreamId};
use crate::traffic::snapshot::{TrafficSnapshot, has_service, has_upstream};
use crate::traffic::wrr::WrrState;
use crate::traffic::manager::{HealthState, CircuitBreakerParams, HealthCheckParams};

verus! {

#[verifier::external_type_specification]
#[verifier::external_body]
#[verifier::reject_recursive_types(K)]
#[verifier::reject_recursive_types(V)]
#[verifier::reject_recursive_types(S)]
pub struct ExDashMap<K, V, S>(DashMap<K, V, S>);

/// The key of per-upstream state: a service and one of its upstreams.
pub type UpstreamKey = (ServiceId, UpstreamId);

/// The view of an upstream key: the service name and the upstream id.
pub open spec fn key_view(k: UpstreamKey) -> (Seq<char>, u32) {
    (k.0@, k.1.0)
}

/// What a map of per-upstream counters holds.
pub uninterp spec fn counters_held(m: DashMap<UpstreamKey, u64>) -> Map<(Seq<char>, u32), u64>;

/// What a map of per-upstream health holds.
pub uninterp spec fn health_held(m: DashMap<UpstreamKey, HealthState>) -> Map<(Seq<char>, u32), HealthState>;

/// What a map of per-service round-robin cursors holds.
pub uninterp spec fn cursors_held(m: DashMap<ServiceId, WrrState>) -> Map<Seq<char>, WrrState>;

/// What a map of per-service circuit breaker parameters holds.
pub uninterp spec fn circuit_params_held(m: DashMap<ServiceId, CircuitBreakerParams>) -> Map<Seq<char>, CircuitBreakerParams>;

/// What a map of per-service health check parameters holds.
pub uninterp spec fn health_params_held(m: DashMap<ServiceId, HealthCheckParams>) -> Map<Seq<char>, HealthCheckParams>;

// ---------------------------------------------------------------------------
// Per-upstream counters

/// `DashMap::new`: a map that holds nothing.
#[verifier::external_body]
fn counters_new() -> (r: DashMap<UpstreamKey, u64>)
    ensures
        forall|k: (Seq<char>, u32)| !#[trigger] counters_held(r).dom().contains(k),
{
    DashMap::new()
}

/// `DashMap::get`: the value held for the key, copied out of the guard.
#[verifier::external_body]
fn counters_get(m: &DashMap<UpstreamKey, u64>, k: &UpstreamKey) -> (r: Option<u64>)
    ensures
        r == counters_held(*m).get(key_view(*k)),
{
    m.get(k).map(|v| *v)
}

/// `DashMap::insert`: the key now holds the value; other keys are untouched.
#[verifier::external_body]
fn counters_insert(m: &mut DashMap<UpstreamKey, u64>, k: UpstreamKey, v: u64)
    ensures
        counters_held(*final(m)) == counters_held(*old(m)).insert(key_view(k), v),
{
    m.insert(k, v);
}

/// `DashMap::retain`, keeping the upstreams the snapshot still has.
#[verifier::external_body]
fn counters_retain(m: &mut DashMap<UpstreamKey, u64>, snap: &TrafficSnapshot)
    requires
        snap.wf(),
    ensures
        counters_held(*final(m)) == counters_held(*old(m)).filter_keys(|q: (Seq<char>, u32)| has_upstream(*snap, q.0, q.1)),
{
    m.retain(|k, _| snap.holds_upstream(&k.0, k.1));
}

/// Counters per upstream.
#[derive(Debug)]
pub struct CounterTable {
    map: DashMap<UpstreamKey, u64>,
}

impl CounterTable {
    pub closed spec fn held(&self) -> Map<(Seq<char>, u32), u64> {
        counters_held(self.map)
    }

    /// The counter of an upstream, if it has one.
    pub open spec fn get_spec(&self, k: (Seq<char>, u32)) -> Option<u64> {
        self.held().get(k)
    }

    pub fn new() -> (t: Self)
        ensures
            forall|k: (Seq<char>, u32)| #[trigger] t.get_spec(k) is None,
    {
        CounterTable { map: counters_new() }
    }

    pub fn get(&self, k: &UpstreamKey) -> (r: Option<u64>)
        ensures
            r == self.get_spec(key_view(*k)),
    {
        counters_get(&self.map, k)
    }

    pub fn insert(&mut self, k: UpstreamKey, v: u64)
        ensures
            forall|q: (Seq<char>, u32)| #[trigger] final(self).get_spec(q)
                == (if q == key_view(k) { Some(v) } else { old(self).get_spec(q) }),
    {
        counters_insert(&mut self.map, k, v);
    }

    /// Drops the counters of upstreams the snapshot no longer has.
    pub fn retain_upstreams_of(&mut self, snap: &TrafficSnapshot)
        requires
            snap.wf(),
        ensures
            forall|q: (Seq<char>, u32)| #[trigger] final(self).get_spec(q)
                == (if has_upstream(*snap, q.0, q.1) { old(self).get_spec(q) } else { None }),
    {
        counters_retain(&mut self.map, snap);
    }
}

// ---------------------------------------------------------------------------
// Per-upstream health

/// `DashMap::new`: a map that holds nothing.
#[verifier::external_body]
fn health_new() -> (r: DashMap<UpstreamKey, HealthState>)
    ensures
        forall|k: (Seq<char>, u32)| !#[trigger] health_held(r).dom().contains(k),
{
    DashMap::new()
}

/// `DashMap::get`: the value held for the key, copied out of the guard.
#[verifier::external_body]
fn health_get(m: &DashMap<UpstreamKey, HealthState>, k: &UpstreamKey) -> (r: Option<HealthState>)
    ensures
        r == health_held(*m).get(key_view(*k)),
{
    m.get(k).map(|v| *v)
}

/// `DashMap::insert`: the key now holds the value; other keys are untouched.
#[verifier::external_body]
fn health_insert(m: &mut DashMap<UpstreamKey, HealthState>, k: UpstreamKey, v: HealthState)
    ensures
        health_held(*final(m)) == health_held(*old(m)).insert(key_view(k), v),
{
    m.insert(k, v);
}

/// `DashMap::retain`, keeping the upstreams the snapshot still has.
#[verifier::external_body]
fn health_retain(m: &mut DashMap<UpstreamKey, HealthState>, snap: &TrafficSnapshot)
    requires
        snap.wf(),
    ensures
        health_held(*final(m)) == health_held(*old(m)).filter_keys(|q: (Seq<char>, u32)| has_upstream(*snap, q.0, q.1)),
{
    m.retain(|k, _| snap.holds_upstream(&k.0, k.1));
}

/// Passive health per upstream.
#[derive(Debug)]
pub struct HealthTable {
    map: DashMap<UpstreamKey, HealthState>,
}

impl HealthTable {
    pub closed spec fn held(&self) -> Map<(Seq<char>, u32), HealthState> {
        health_held(self.map)
    }

    /// The health of an upstream, if it has any.
    pub open spec fn get_spec(&self, k: (Seq<char>, u32)) -> Option<HealthState> {
        self.held().get(k)
    }

    pub fn new() -> (t: Self)
        ensures
            forall|k: (Seq<char>, u32)| #[trigger] t.get_spec(k) is None,
    {
        HealthTable { map: health_new() }
    }

    pub fn get(&self, k: &UpstreamKey) -> (r: Option<HealthState>)
        ensures
            r == self.get_spec(key_view(*k)),
    {
        health_get(&self.map, k)
    }

    pub fn insert(&mut self, k: UpstreamKey, v: HealthState)
        ensures
            forall|q: (Seq<char>, u32)| #[trigger] final(self).get_spec(q)
                == (if q == key_view(k) { Some(v) } else { old(self).get_spec(q) }),
    {
        health_insert(&mut self.map, k, v);
    }

    /// Drops the health of upstreams the snapshot no longer has.
    pub fn retain_upstreams_of(&mut self, snap: &TrafficSnapshot)
        requires
            snap.wf(),
        ensures
            forall|q: (Seq<char>, u32)| #[trigger] final(self).get_spec(q)
                == (if has_upstream(*snap, q.0, q.1) { old(self).get_spec(q) } else { None }),
    {
        health_retain(&mut self.map, snap);
    }
}

// ---------------------------------------------------------------------------
// Per-service round-robin cursors

/// `DashMap::new`: a map that holds nothing.
#[verifier::external_body]
fn cursors_new() -> (r: DashMap<ServiceId, WrrState>)
    ensures
        forall|k: Seq<char>| !#[trigger] cursors_held(r).dom().contains(k),
{
    DashMap::new()
}

/// `DashMap::remove`: the value held for the key, now taken out.
#[verifier::external_body]
fn cursors_remove(m: &mut DashMap<ServiceId, WrrState>, k: &ServiceId) -> (r: Option<WrrState>)
    ensures
        r == cursors_held(*old(m)).get(k@),
        cursors_held(*final(m)) == cursors_held(*old(m)).remove(k@),
{
    m.remove(k).map(|(_, v)| v)
}

/// `DashMap::insert`: the key now holds the value; other keys are untouched.
#[verifier::external_body]
fn cursors_insert(m: &mut DashMap<ServiceId, WrrState>, k: ServiceId, v: WrrState)
    ensures
        cursors_held(*final(m)) == cursors_held(*old(m)).insert(k@, v),
{
    m.insert(k, v);
}

/// `DashMap::retain`, keeping the services the snapshot still has.
#[verifier::external_body]
fn cursors_retain(m: &mut DashMap<ServiceId, WrrState>, snap: &TrafficSnapshot)
    ensures
        cursors_held(*final(m)) == cursors_held(*old(m)).filter_keys(|s: Seq<char>| has_service(*snap, s)),
{
    m.retain(|k, _| snap.holds_service(k));
}

/// Round-robin cursors per service.
#[derive(Debug)]
pub struct CursorTable {
    map: DashMap<ServiceId, WrrState>,
}

impl CursorTable {
    pub closed spec fn held(&self) -> Map<Seq<char>, WrrState> {
        cursors_held(self.map)
    }

    /// The cursor of a service, if it has one.
    pub open spec fn get_spec(&self, k: Seq<char>) -> Option<WrrState> {
        self.held().get(k)
    }

    pub fn new() -> (t: Self)
        ensures
            forall|k: Seq<char>| #[trigger] t.get_spec(k) is None,
    {
        CursorTable { map: cursors_new() }
    }

    /// Takes out the cursor of a service.
    pub fn take(&mut self, k: &ServiceId) -> (r: Option<WrrState>)
        ensures
            r == old(self).get_spec(k@),
            forall|q: Seq<char>| #[trigger] final(self).get_spec(q)
                == (if q == k@ { None } else { old(self).get_spec(q) }),
    {
        cursors_remove(&mut self.map, k)
    }

    pub fn insert(&mut self, k: ServiceId, v: WrrState)
        ensures
            forall|q: Seq<char>| #[trigger] final(self).get_spec(q)
                == (if q == k@ { Some(v) } else { old(self).get_spec(q) }),
    {
        cursors_insert(&mut self.map, k, v);
    }

    /// Drops the cursors of services the snapshot no longer has.
    pub fn retain_services_of(&mut self, snap: &TrafficSnapshot)
        ensures
            forall|q: Seq<char>| #[trigger] final(self).get_spec(q)
                == (if has_service(*snap, q) { old(self).get_spec(q) } else { None }),
    {
        cursors_retain(&mut self.map, snap);
    }
}

// ---------------------------------------------------------------------------
// Per-service circuit breaker parameters

/// `DashMap::new`: a map that holds nothing.
#[verifier::external_body]
fn circuit_params_new() -> (r: DashMap<ServiceId, CircuitBreakerParams>)
    ensures
        forall|k: Seq<char>| !#[trigger] circuit_params_held(r).dom().contains(k),
{
    DashMap::new()
}

/// `DashMap::get`: the value held for the key, copied out of the guard.
#[verifier::external_body]
fn circuit_params_get(m: &DashMap<ServiceId, CircuitBreakerParams>, k: &ServiceId) -> (r: Option<CircuitBreakerParams>)
    ensures
        r == circuit_params_held(*m).get(k@),
{
    m.get(k).map(|v| *v)
}

/// `DashMap::insert`: the key now holds the value; other keys are untouched.
#[verifier::external_body]
fn circuit_params_insert(m: &mut DashMap<ServiceId, CircuitBreakerParams>, k: ServiceId, v: CircuitBreakerParams)
    ensures
        circuit_params_held(*final(m)) == circuit_params_held(*old(m)).insert(k@, v),
{
    m.insert(k, v);
}

/// `DashMap::retain`, keeping the services the snapshot still has.
#[verifier::external_body]
fn circuit_params_retain(m: &mut DashMap<ServiceId, CircuitBreakerParams>, snap: &TrafficSnapshot)
    ensures
        circuit_params_held(*final(m)) == circuit_params_held(*old(m)).filter_keys(|s: Seq<char>| has_service(*snap, s)),
{
    m.retain(|k, _| snap.holds_service(k));
}

/// Circuit breaker parameters per service.
#[derive(Debug)]
pub struct CircuitParamsTable {
    map: DashMap<ServiceId, CircuitBreakerParams>,
}

impl CircuitParamsTable {
    pub closed spec fn held(&self) -> Map<Seq<char>, CircuitBreakerParams> {
        circuit_params_held(self.map)
    }

    /// The parameters of a service, if it has them.
    pub open spec fn get_spec(&self, k: Seq<char>) -> Option<CircuitBreakerParams> {
        self.held().get(k)
    }

    pub fn new() -> (t: Self)
        ensures
            forall|k: Seq<char>| #[trigger] t.get_spec(k) is None,
    {
        CircuitParamsTable { map: circuit_params_new() }
    }

    pub fn get(&self, k: &ServiceId) -> (r: Option<CircuitBreakerParams>)
        ensures
            r == self.get_spec(k@),
    {
        circuit_params_get(&self.map, k)
    }

    pub fn insert(&mut self, k: ServiceId, v: CircuitBreakerParams)
        ensures
            forall|q: Seq<char>| #[trigger] final(self).get_spec(q)
                == (if q == k@ { Some(v) } else { old(self).get_spec(q) }),
    {
        circuit_params_insert(&mut self.map, k, v);
    }

    /// Drops the parameters of services the snapshot no longer has.
    pub fn retain_services_of(&mut self, snap: &TrafficSnapshot)
        ensures
            forall|q: Seq<char>| #[trigger] final(self).get_spec(q)
                == (if has_service(*snap, q) { old(self).get_spec(q) } else { None }),
    {
        circuit_params_retain(&mut self.map, snap);
    }
}

// ---------------------------------------------------------------------------
// Per-service health check parameters

/// `DashMap::new`: a map that holds nothing.
#[verifier::external_body]
fn health_params_new() -> (r: DashMap<ServiceId, HealthCheckParams>)
    ensures
        forall|k: Seq<char>| !#[trigger] health_params_held(r).dom().contains(k),
{
    DashMap::new()
}

/// `DashMap::get`: the value held for the key, copied out of the guard.
#[verifier::external_body]
fn health_params_get(m: &DashMap<ServiceId, HealthCheckParams>, k: &ServiceId) -> (r: Option<HealthCheckParams>)
    ensures
        r == health_params_held(*m).get(k@),
{
    m.get(k).map(|v| *v)
}

/// `DashMap::insert`: the key now holds the value; other keys are untouched.
#[verifier::external_body]
fn health_params_insert(m: &mut DashMap<ServiceId, HealthCheckParams>, k: ServiceId, v: HealthCheckParams)
    ensures
        health_params_held(*final(m)) == health_params_held(*old(m)).insert(k@, v),
{
    m.insert(k, v);
}

/// `DashMap::retain`, keeping the services the snapshot still has.
#[verifier::external_body]
fn health_params_retain(m: &mut DashMap<ServiceId, HealthCheckParams>, snap: &TrafficSnapshot)
    ensures
        health_params_held(*final(m)) == health_params_held(*old(m)).filter_keys(|s: Seq<char>| has_service(*snap, s)),
{
    m.retain(|k, _| snap.holds_service(k));
}

/// Health check parameters per service.
#[derive(Debug)]
pub struct HealthParamsTable {
    map: DashMap<ServiceId, HealthCheckParams>,
}

impl HealthParamsTable {
    pub closed spec fn held(&self) -> Map<Seq<char>, HealthCheckParams> {
        health_params_held(self.map)
    }

    /// The parameters of a service, if it has them.
    pub open spec fn get_spec(&self, k: Seq<char>) -> Option<HealthCheckParams> {
        self.held().get(k)
    }

    pub fn new() -> (t: Self)
        ensures
            forall|k: Seq<char>| #[trigger] t.get_spec(k) is None,
    {
        HealthParamsTable { map: health_params_new() }
    }

    pub fn get(&self, k: &ServiceId) -> (r: Option<HealthCheckParams>)
        ensures
            r == self.get_spec(k@),
    {
        health_params_get(&self.map, k)
    }

    pub fn insert(&mut self, k: ServiceId, v: HealthCheckParams)
        ensures
            forall|q: Seq<char>| #[trigger] final(self).get_spec(q)
                == (if q == k@ { Some(v) } else { old(self).get_spec(q) }),
    {
        health_params_insert(&mut self.map, k, v);
    }

    /// Drops the parameters of services the snapshot no longer has.
    pub fn retain_services_of(&mut self, snap: &TrafficSnapshot)
        ensures
            forall|q: Seq<char>| #[trigger] final(self).get_spec(q)
                == (if has_service(*snap, q) { old(self).get_spec(q) } else { None }),
    {
        health_params_retain(&mut self.map, snap);
    }
}

} // verus!
