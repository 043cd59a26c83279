//! The control-plane snapshot of services and their upstreams.
use vstd::prelude::*;
use crate::traffic::types::{ServiceId, UpstreamId};
use crate::runtime::types::UpstreamRuntime;

verus! {

/// How a service picks among its upstreams.
#[derive(Debug, Clone, Copy, PartialEq, Eq, Structural)]
pub enum LoadBalancingStrategy {
    Failover,
    Random,
    RequestPressure,
    RoundRobin,
    StickyHash,
}

/// A service's circuit breaker settings.
#[derive(Debug, Clone, Copy)]
pub struct CircuitBreakerConfig {
    pub enable_auto_recovery: bool,
    pub failure_threshold: u32,
    pub open_duration_milliseconds: u64,
    pub half_open_max_requests: u32,
    pub success_threshold: u32,
    pub count_http_5xx_as_failure: bool,
}

/// A service's passive health check settings.
#[derive(Debug, Clone, Copy)]
pub struct HealthCheckConfig {
    pub enable: bool,
    pub failure_threshold: u64,
    pub unhealthy_cooldown_seconds: u64,
}

/// One upstream of a service in the snapshot.
#[derive(Debug, Clone)]
pub struct UpstreamSnapshot {
    pub endpoint: UpstreamRuntime,
    /// Smoothed latency in milliseconds, when measured.
    pub latency_ms: Option<u64>,
    pub weight: u32,
}

/// One service in the snapshot.
#[derive(Debug, Clone)]
pub struct ServiceSnapshot {
    pub service_id: ServiceId,
    pub strategy: LoadBalancingStrategy,
    pub upstreams: Vec<UpstreamSnapshot>,
    pub circuit_breaker_cfg: CircuitBreakerConfig,
    pub health_check_cfg: HealthCheckConfig,
}

/// Immutable, control-plane snapshot of traffic topology: the services,
/// each named once.
#[derive(Debug, Clone)]
pub struct TrafficSnapshot {
    pub services: Vec<ServiceSnapshot>,
}

/// A service as the runtime holds it.
#[derive(Debug, Clone)]
pub struct ServiceRuntime {
    pub strategy: LoadBalancingStrategy,
    pub upstreams: Vec<UpstreamRuntime>,
    pub circuit_breaker_cfg: CircuitBreakerConfig,
    pub health_check_cfg: HealthCheckConfig,
    pub listener: Option<String>,
}

/// No two services share a name.
pub open spec fn services_distinct(s: Seq<ServiceSnapshot>) -> bool {
    forall|i: int, j: int| 0 <= i < s.len() && 0 <= j < s.len() && i != j
        ==> (#[trigger] s[i]).service_id@ != (#[trigger] s[j]).service_id@
}

/// The service named `name`, if any.
pub open spec fn find_service(s: Seq<ServiceSnapshot>, name: Seq<char>) -> Option<ServiceSnapshot> {
    if exists|i: int| 0 <= i < s.len() && (#[trigger] s[i]).service_id@ == name {
        Some(s[choose|i: int| 0 <= i < s.len() && (#[trigger] s[i]).service_id@ == name])
    } else {
        None
    }
}

/// Whether the snapshot holds a service named `name`.
pub open spec fn has_service(snap: TrafficSnapshot, name: Seq<char>) -> bool {
    exists|i: int| 0 <= i < snap.services@.len() && (#[trigger] snap.services@[i]).service_id@ == name
}

/// Whether the snapshot holds a service named `name` with an upstream `id`.
pub open spec fn has_upstream(snap: TrafficSnapshot, name: Seq<char>, id: u32) -> bool {
    exists|i: int, j: int| 0 <= i < snap.services@.len() && (#[trigger] snap.services@[i]).service_id@ == name
        && 0 <= j < snap.services@[i].upstreams@.len()
        && (#[trigger] snap.services@[i].upstreams@[j]).endpoint.id_spec().0 == id
}

impl TrafficSnapshot {
    pub open spec fn wf(&self) -> bool {
        services_distinct(self.services@)
    }

    /// Whether no two services of the snapshot share a name.
    pub fn names_distinct(&self) -> (r: bool)
        ensures
            r == self.wf(),
    {
        let n = self.services.len();
        let mut i: usize = 0;
        while i < n
            invariant
                n == self.services@.len(),
                i <= n,
                forall|a: int, b: int| 0 <= a < i && 0 <= b < n && a != b
                    ==> (#[trigger] self.services@[a]).service_id@ != (#[trigger] self.services@[b]).service_id@,
            decreases n - i,
        {
            let mut j: usize = 0;
            while j < n
                invariant
                    n == self.services@.len(),
                    i < n,
                    j <= n,
                    forall|a: int, b: int| 0 <= a < i && 0 <= b < n && a != b
                        ==> (#[trigger] self.services@[a]).service_id@ != (#[trigger] self.services@[b]).service_id@,
                    forall|b: int| 0 <= b < j && b != i
                        ==> self.services@[i as int].service_id@ != (#[trigger] self.services@[b]).service_id@,
                decreases n - j,
            {
                if j != i && self.services[i].service_id.same_as(&self.services[j].service_id) {
                    assert(!services_distinct(self.services@)) by {
                        assert(self.services@[i as int].service_id@ == self.services@[j as int].service_id@);
                    }
                    return false;
                }
                j = j + 1;
            }
            i = i + 1;
        }
        true
    }

    /// Whether a service named like `service` is in the snapshot.
    pub fn holds_service(&self, service: &ServiceId) -> (r: bool)
        ensures
            r == has_service(*self, service@),
    {
        let mut i: usize = 0;
        while i < self.services.len()
            invariant
                i <= self.services.len(),
                forall|k: int| 0 <= k < i ==> (#[trigger] self.services@[k]).service_id@ != service@,
            decreases self.services.len() - i,
        {
            if self.services[i].service_id.same_as(service) {
                assert(self.services@[i as int].service_id@ == service@);
                return true;
            }
            i = i + 1;
        }
        false
    }

    /// Whether the service named like `service` has the upstream `id`.
    pub fn holds_upstream(&self, service: &ServiceId, id: UpstreamId) -> (r: bool)
        requires
            self.wf(),
        ensures
            r == has_upstream(*self, service@, id.0),
    {
        let mut i: usize = 0;
        while i < self.services.len()
            invariant
                self.wf(),
                i <= self.services.len(),
                forall|k: int| 0 <= k < i ==> (#[trigger] self.services@[k]).service_id@ != service@,
            decreases self.services.len() - i,
        {
            if self.services[i].service_id.same_as(service) {
                assert(self.services@[i as int].service_id@ == service@);
                let ups = &self.services[i].upstreams;
                let mut j: usize = 0;
                while j < ups.len()
                    invariant
                        i < self.services@.len(),
                        self.wf(),
                        self.services@[i as int].service_id@ == service@,
                        j <= ups.len(),
                        *ups == self.services@[i as int].upstreams,
                        forall|q: int| 0 <= q < j ==> (#[trigger] ups@[q]).endpoint.id_spec().0 != id.0,
                    decreases ups.len() - j,
                {
                    if ups[j].endpoint.id().0 == id.0 {
                        assert(self.services@[i as int].upstreams@[j as int].endpoint.id_spec().0 == id.0);
                        return true;
                    }
                    j = j + 1;
                }
                proof {
                    assert forall|a: int, b: int| 0 <= a < self.services@.len() && (#[trigger] self.services@[a]).service_id@ == service@
                        && 0 <= b < self.services@[a].upstreams@.len()
                        implies (#[trigger] self.services@[a].upstreams@[b]).endpoint.id_spec().0 != id.0 by {
                        if a != i {
                            assert(services_distinct(self.services@));
                            assert(self.services@[a].service_id@ != self.services@[i as int].service_id@);
                        }
                    }
                }
                return false;
            }
            i = i + 1;
        }
        false
    }

    /// Builds the snapshot from the runtime's services, each by its name;
    /// upstream weights come from the endpoints, latencies start unmeasured.
    pub fn from_runtime(services: &Vec<(String, ServiceRuntime)>) -> (s: TrafficSnapshot)
        requires
            forall|i: int, j: int| 0 <= i < services@.len() && 0 <= j < services@.len() && i != j
                ==> (#[trigger] services@[i]).0@ != (#[trigger] services@[j]).0@,
        ensures
            s.wf(),
            s.services@.len() == services@.len(),
            forall|i: int| 0 <= i < services@.len() ==> {
                let out = #[trigger] s.services@[i];
                let src = services@[i].1;
                &&& out.service_id@ == services@[i].0@
                &&& out.strategy == src.strategy
                &&& out.circuit_breaker_cfg == src.circuit_breaker_cfg
                &&& out.health_check_cfg == src.health_check_cfg
                &&& out.upstreams@.len() == src.upstreams@.len()
                &&& forall|j: int| 0 <= j < src.upstreams@.len() ==> {
                    let u = #[trigger] out.upstreams@[j];
                    &&& u.endpoint == src.upstreams@[j]
                    &&& u.latency_ms is None
                    &&& u.weight == src.upstreams@[j].weight_spec()
                }
            },
    {
        let mut out: Vec<ServiceSnapshot> = Vec::new();
        let mut i: usize = 0;
        while i < services.len()
            invariant
                i <= services.len(),
                out@.len() == i,
                forall|a: int| 0 <= a < i ==> {
                    let o = #[trigger] out@[a];
                    let src = services@[a].1;
                    &&& o.service_id@ == services@[a].0@
                    &&& o.strategy == src.strategy
                    &&& o.circuit_breaker_cfg == src.circuit_breaker_cfg
                    &&& o.health_check_cfg == src.health_check_cfg
                    &&& o.upstreams@.len() == src.upstreams@.len()
                    &&& forall|j: int| 0 <= j < src.upstreams@.len() ==> {
                        let u = #[trigger] o.upstreams@[j];
                        &&& u.endpoint == src.upstreams@[j]
                        &&& u.latency_ms is None
                        &&& u.weight == src.upstreams@[j].weight_spec()
                    }
                },
            decreases services.len() - i,
        {
            let name = &services[i].0;
            let svc = &services[i].1;
            let mut ups: Vec<UpstreamSnapshot> = Vec::new();
            let mut j: usize = 0;
            while j < svc.upstreams.len()
                invariant
                    j <= svc.upstreams.len(),
                    ups@.len() == j,
                    forall|q: int| 0 <= q < j ==> {
                        let u = #[trigger] ups@[q];
                        &&& u.endpoint == svc.upstreams@[q]
                        &&& u.latency_ms is None
                        &&& u.weight == svc.upstreams@[q].weight_spec()
                    },
                decreases svc.upstreams.len() - j,
            {
                let e = clone_endpoint(&svc.upstreams[j]);
                let w = svc.upstreams[j].weight();
                ups.push(UpstreamSnapshot { endpoint: e, latency_ms: None, weight: w });
                j = j + 1;
            }
            out.push(ServiceSnapshot {
                service_id: ServiceId(name.clone()),
                strategy: svc.strategy,
                upstreams: ups,
                circuit_breaker_cfg: svc.circuit_breaker_cfg,
                health_check_cfg: svc.health_check_cfg,
            });
            i = i + 1;
        }
        let s = TrafficSnapshot { services: out };
        assert(services_distinct(s.services@)) by {
            assert forall|a: int, b: int| 0 <= a < s.services@.len() && 0 <= b < s.services@.len() && a != b
                implies (#[trigger] s.services@[a]).service_id@ != (#[trigger] s.services@[b]).service_id@ by {
                assert(services@[a].0@ != services@[b].0@);
            }
        }
        s
    }
}

/// A copy of an endpoint, field by field.
pub fn clone_endpoint(u: &UpstreamRuntime) -> (r: UpstreamRuntime)
    ensures
        r == *u,
{
    match u {
        UpstreamRuntime::Tcp(t) => UpstreamRuntime::Tcp(crate::runtime::types::UpstreamTcpRuntime {
            id: t.id,
            host: t.host.clone(),
            port: t.port,
            use_tls: t.use_tls,
            sni: t.sni.clone(),
            weight: t.weight,
            verify: t.verify,
            group_key: t.group_key,
        }),
        UpstreamRuntime::Unix(x) => UpstreamRuntime::Unix(crate::runtime::types::UpstreamUnixRuntime {
            id: x.id,
            path: x.path.clone(),
            use_tls: x.use_tls,
            sni: x.sni.clone(),
            weight: x.weight,
        }),
    }
}

} // verus!
