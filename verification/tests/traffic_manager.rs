use snakeway::runtime::types::{UpstreamRuntime, UpstreamTcpRuntime, UpstreamUnixRuntime};
use snakeway::traffic::admission_guard::AdmissionGuard;
use snakeway::traffic::manager::{CircuitBreakerDetailsView, CircuitState, HealthState, TrafficManager};
use snakeway::traffic::snapshot::{
    CircuitBreakerConfig, HealthCheckConfig, LoadBalancingStrategy, ServiceRuntime, ServiceSnapshot,
    TrafficSnapshot, UpstreamSnapshot,
};
use snakeway::traffic::types::{ServiceId, UpstreamId};

fn unix(id: u32, weight: u32) -> UpstreamRuntime {
    UpstreamRuntime::Unix(UpstreamUnixRuntime {
        id: UpstreamId::new(id),
        path: format!("/tmp/u{id}.sock"),
        use_tls: false,
        sni: "svc.internal".to_string(),
        weight,
    })
}

fn cb() -> CircuitBreakerConfig {
    CircuitBreakerConfig {
        enable_auto_recovery: true,
        failure_threshold: 5,
        open_duration_milliseconds: 1000,
        half_open_max_requests: 1,
        success_threshold: 1,
        count_http_5xx_as_failure: true,
    }
}

fn hc(enable: bool) -> HealthCheckConfig {
    HealthCheckConfig { enable, failure_threshold: 3, unhealthy_cooldown_seconds: 10 }
}

fn service(name: &str, ups: &[(u32, u32)], enable_health: bool) -> ServiceSnapshot {
    ServiceSnapshot {
        service_id: ServiceId::new(name.to_string()),
        strategy: LoadBalancingStrategy::RoundRobin,
        upstreams: ups.iter().map(|&(id, w)| UpstreamSnapshot { endpoint: unix(id, w), latency_ms: None, weight: w }).collect(),
        circuit_breaker_cfg: cb(),
        health_check_cfg: hc(enable_health),
    }
}

fn manager() -> TrafficManager {
    TrafficManager::new(TrafficSnapshot { services: vec![service("api", &[(1, 5), (2, 1), (3, 1)], true)] })
}

fn svc(name: &str) -> ServiceId {
    ServiceId::new(name.to_string())
}

#[test]
fn start_and_end_balance_the_active_count() {
    let mut tm = manager();
    let (s, u) = (svc("api"), UpstreamId::new(1));
    tm.on_request_start(&s, &u);
    tm.on_request_start(&s, &u);
    assert_eq!(tm.active_requests(&s, &u), 2);
    tm.on_request_end(&s, &u);
    assert_eq!(tm.active_requests(&s, &u), 1);
    tm.on_request_end(&s, &u);
    tm.on_request_end(&s, &u);
    assert_eq!(tm.active_requests(&s, &u), 0);
    assert_eq!(tm.total_requests(&s, &u), 2);
}

#[test]
fn failures_walk_the_health_state_to_the_threshold() {
    let mut tm = manager();
    let (s, u) = (svc("api"), UpstreamId::new(1));
    assert!(!tm.report_failure(&s, &u, 100));
    assert!(!tm.report_failure(&s, &u, 200));
    assert!(tm.health_status(&s, &u, 250).healthy == false);
    assert!(tm.report_failure(&s, &u, 300), "the third failure reaches the threshold and trips the circuit");
    assert_eq!(tm.total_failures(&s, &u), 3);
    let key = (s.clone(), u);
    assert_eq!(tm.upstream_health.get(&key), Some(HealthState::Unhealthy { consecutive_failures: 3, last_failure_ms: 300 }));
}

#[test]
fn cooldown_puts_an_unhealthy_upstream_on_trial() {
    let mut tm = manager();
    let (s, u) = (svc("api"), UpstreamId::new(2));
    tm.report_failure(&s, &u, 1_000);
    assert!(!tm.health_status(&s, &u, 11_000).healthy, "exactly the cooldown is not past it");
    assert!(tm.health_status(&s, &u, 11_001).healthy);
    assert!(tm.report_failure(&s, &u, 11_002), "one failure on trial is at the threshold again");
}

#[test]
fn success_restores_health() {
    let mut tm = manager();
    let (s, u) = (svc("api"), UpstreamId::new(3));
    tm.report_failure(&s, &u, 5);
    tm.report_success(&s, &u);
    assert!(tm.health_status(&s, &u, 6).healthy);
    assert_eq!(tm.total_successes(&s, &u), 1);
}

#[test]
fn disabled_health_checks_always_report_healthy() {
    let mut tm = TrafficManager::new(TrafficSnapshot { services: vec![service("off", &[(9, 1)], false)] });
    let (s, u) = (svc("off"), UpstreamId::new(9));
    assert!(!tm.report_failure(&s, &u, 1));
    assert!(tm.health_status(&s, &u, 2).healthy);
    assert_eq!(tm.total_failures(&s, &u), 1);
}

#[test]
fn weighted_round_robin_follows_the_weights() {
    let mut tm = manager();
    let healthy = TrafficSnapshot { services: vec![service("api", &[(1, 5), (2, 1), (3, 1)], true)] }.services[0].upstreams.clone();
    let picks: Vec<usize> = (0..7).map(|_| tm.next_wrr_index(&svc("api"), &healthy)).collect();
    assert_eq!(picks, vec![0, 0, 1, 0, 2, 0, 0]);
}

#[test]
fn changed_candidates_reset_the_cursor() {
    let mut tm = manager();
    let a = TrafficSnapshot { services: vec![service("api", &[(1, 1), (2, 1)], true)] }.services[0].upstreams.clone();
    assert_eq!(tm.next_wrr_index(&svc("api"), &a), 0);
    let b = TrafficSnapshot { services: vec![service("api", &[(2, 1), (1, 1)], true)] }.services[0].upstreams.clone();
    assert_eq!(tm.next_wrr_index(&svc("api"), &b), 0);
}

#[test]
fn update_keeps_state_only_for_upstreams_still_present() {
    let mut tm = manager();
    let s = svc("api");
    tm.on_request_start(&s, &UpstreamId::new(1));
    tm.on_request_start(&s, &UpstreamId::new(2));
    tm.update(TrafficSnapshot { services: vec![service("api", &[(1, 5)], true), service("web", &[(7, 1)], true)] });
    assert_eq!(tm.active_requests(&s, &UpstreamId::new(1)), 1);
    assert_eq!(tm.active_requests(&s, &UpstreamId::new(2)), 0);
    assert_eq!(tm.total_requests(&s, &UpstreamId::new(2)), 0);
    assert!(tm.health_params.get(&svc("web")).is_some());
    tm.update(TrafficSnapshot { services: vec![] });
    assert!(tm.health_params.get(&svc("api")).is_none());
    assert_eq!(tm.active_requests(&s, &UpstreamId::new(1)), 0);
}

#[test]
fn the_guard_reports_once() {
    let mut tm = manager();
    let s = svc("api");
    let u = UpstreamId::new(1);
    let mut guard = AdmissionGuard::new(&mut tm, s.clone(), u, 100);
    assert_eq!(tm.active_requests(&s, &u), 1);
    let first = guard.success(&mut tm, 130);
    assert!(first.reported);
    assert_eq!(first.latency_ms, 30);
    let second = guard.failure(&mut tm, 140);
    assert!(!second.reported);
    assert_eq!(tm.active_requests(&s, &u), 0);
    assert_eq!(tm.total_successes(&s, &u), 1);
    assert_eq!(tm.total_failures(&s, &u), 0);
}

#[test]
fn snapshot_from_runtime_copies_services() {
    let services = vec![(
        "api".to_string(),
        ServiceRuntime {
            strategy: LoadBalancingStrategy::Failover,
            upstreams: vec![unix(1, 3)],
            circuit_breaker_cfg: cb(),
            health_check_cfg: hc(true),
            listener: None,
        },
    )];
    let snap = TrafficSnapshot::from_runtime(&services);
    assert_eq!(snap.services.len(), 1);
    assert_eq!(snap.services[0].service_id.as_str(), "api");
    assert_eq!(snap.services[0].upstreams[0].weight, 3);
    assert!(snap.holds_upstream(&svc("api"), UpstreamId::new(1)));
    assert!(!snap.holds_upstream(&svc("api"), UpstreamId::new(2)));
    assert!(!snap.holds_service(&svc("web")));
}

#[test]
fn admin_view_shows_counters_with_details() {
    let mut tm = manager();
    let s = svc("api");
    let snap = tm.snapshot().services[0].upstreams[0].clone();
    let id = snap.endpoint.id();
    tm.on_request_start(&s, &id);
    tm.report_success(&s, &id);
    let view = tm.get_upstream_view(&s, &snap, "u1", true, 10, None);
    assert_eq!(view.endpoint, "u1");
    assert_eq!(view.weight, 5);
    assert!(view.health.healthy);
    assert_eq!(view.circuit, CircuitState::Closed);
    assert_eq!(view.active_requests, 1);
    assert_eq!(view.total_requests, 1);
    assert_eq!(view.total_successes, 1);
    assert_eq!(view.total_failures, 0);
    let params = view.circuit_params.unwrap();
    assert_eq!(params.failure_threshold, 5);
    assert_eq!(params.open_duration_milliseconds, 1000);
    let bare = tm.get_upstream_view(&s, &snap, "u1", false, 10, None);
    assert_eq!(bare.total_requests, 0);
    assert!(bare.circuit_params.is_none());
}

#[test]
fn threshold_one_trips_on_the_first_failure() {
    let mut tm = TrafficManager::new(TrafficSnapshot {
        services: vec![ServiceSnapshot { health_check_cfg: HealthCheckConfig { enable: true, failure_threshold: 1, unhealthy_cooldown_seconds: 0 }, ..service("one", &[(1, 1)], true) }],
    });
    assert!(tm.report_failure(&svc("one"), &UpstreamId::new(1), 0));
    assert!(tm.health_status(&svc("one"), &UpstreamId::new(1), 2).healthy);
}

fn tcp_upstream(port: u16) -> UpstreamSnapshot {
    UpstreamSnapshot {
        endpoint: UpstreamRuntime::Tcp(UpstreamTcpRuntime {
            id: UpstreamId::new(port as u32),
            host: "127.0.0.1".to_string(),
            port,
            use_tls: false,
            sni: "localhost".to_string(),
            weight: 1,
            verify: false,
            group_key: 0,
        }),
        latency_ms: None,
        weight: 1,
    }
}

fn single_service(id: &ServiceId, upstream: &UpstreamSnapshot, health: HealthCheckConfig) -> TrafficSnapshot {
    TrafficSnapshot {
        services: vec![ServiceSnapshot {
            service_id: id.clone(),
            strategy: LoadBalancingStrategy::RoundRobin,
            upstreams: vec![upstream.clone()],
            circuit_breaker_cfg: cb(),
            health_check_cfg: health,
        }],
    }
}

#[test]
fn test_admin_view_counters() {
    let service_id = svc("test_svc");
    let upstream_id = UpstreamId::new(8080);
    let upstream_label = format!("{}:{}", "127.0.0.1", 8080);
    let upstream_snapshot = tcp_upstream(8080);
    let mut manager = TrafficManager::new(single_service(&service_id, &upstream_snapshot, hc(true)));

    // Simulate some traffic
    manager.on_request_start(&service_id, &upstream_id);
    manager.on_request_start(&service_id, &upstream_id);
    manager.report_success(&service_id, &upstream_id);
    manager.on_request_end(&service_id, &upstream_id);
    manager.report_failure(&service_id, &upstream_id, 1_000);
    manager.on_request_end(&service_id, &upstream_id);

    let view = manager.get_upstream_view(&service_id, &upstream_snapshot, &upstream_label, true, 1_000, None);

    assert_eq!(view.total_requests, 2);
    assert_eq!(view.total_successes, 1);
    assert_eq!(view.total_failures, 1);
    assert_eq!(view.active_requests, 0);
}

#[test]
fn test_metrics_persistence_on_reload() {
    let service_id = svc("test_svc");
    let upstream_id = UpstreamId::new(8080);
    let snapshot = single_service(&service_id, &tcp_upstream(8080), hc(false));
    let mut manager = TrafficManager::new(snapshot.clone());

    // Record traffic
    manager.on_request_start(&service_id, &upstream_id);
    manager.report_success(&service_id, &upstream_id);
    manager.on_request_end(&service_id, &upstream_id);

    assert_eq!(manager.total_requests(&service_id, &upstream_id), 1);

    // Reload with the same upstream: counters persist
    manager.update(snapshot);
    assert_eq!(manager.total_requests(&service_id, &upstream_id), 1);

    // Reload with a different upstream: the old upstream's counters are dropped
    manager.update(single_service(&service_id, &tcp_upstream(8081), hc(false)));
    assert_eq!(manager.total_requests(&service_id, &upstream_id), 0);
}

#[test]
fn circuit_details_are_shown_as_given() {
    let mut tm = manager();
    let (s, u) = (svc("api"), UpstreamId::new(1));
    let snap = tm.snapshot().services[0].upstreams[0].clone();
    let details = CircuitBreakerDetailsView {
        consecutive_failures: 4,
        opened_at_rfc3339: Some("2024-01-01T00:00:00+00:00".to_string()),
        half_open_in_flight: 1,
        half_open_successes: 2,
    };
    let view = tm.get_upstream_view(&s, &snap, "u1", true, 10, Some((CircuitState::Open, details.clone())));
    assert_eq!(view.circuit, CircuitState::Open);
    let shown = view.circuit_details.unwrap();
    assert_eq!(shown.consecutive_failures, 4);
    assert_eq!(shown.opened_at_rfc3339.as_deref(), Some("2024-01-01T00:00:00+00:00"));
    assert_eq!(shown.half_open_in_flight, 1);
    assert_eq!(shown.half_open_successes, 2);
    let bare = tm.get_upstream_view(&s, &snap, "u1", false, 10, Some((CircuitState::Open, details)));
    assert!(bare.circuit_details.is_none());
    let _ = u;
}

#[test]
fn guard_failures_count_and_trip_at_the_threshold() {
    let mut tm = manager();
    let s = svc("api");
    let u = UpstreamId::new(2);
    let mut trips = Vec::new();
    for t in 0..3u64 {
        let mut guard = AdmissionGuard::new(&mut tm, s.clone(), u, t * 10);
        assert!(!guard.finished());
        assert_eq!(guard.service_id().as_str(), "api");
        let r = guard.failure(&mut tm, t * 10 + 5);
        assert!(guard.finished());
        assert!(r.reported);
        assert!(!r.success);
        trips.push(r.trip_circuit);
    }
    assert_eq!(trips, vec![false, false, true]);
    assert_eq!(tm.total_failures(&s, &u), 3);
    assert_eq!(tm.total_successes(&s, &u), 0);
    assert_eq!(tm.total_requests(&s, &u), 3);
    assert_eq!(tm.active_requests(&s, &u), 0);
    assert!(!tm.health_status(&s, &u, 30).healthy);
}

#[test]
fn guard_success_marks_the_upstream_healthy() {
    let mut tm = manager();
    let s = svc("api");
    let u = UpstreamId::new(3);
    for _ in 0..3 {
        tm.report_failure(&s, &u, 0);
    }
    assert!(!tm.health_status(&s, &u, 1).healthy);
    let mut guard = AdmissionGuard::new(&mut tm, s.clone(), u, 50);
    let r = guard.success(&mut tm, 40);
    assert!(r.reported && r.success && !r.trip_circuit);
    assert_eq!(r.latency_ms, 0);
    assert!(tm.health_status(&s, &u, 2).healthy);
    assert_eq!(tm.total_successes(&s, &u), 1);
    assert_eq!(tm.total_failures(&s, &u), 3);
}

#[test]
fn guard_failure_with_health_checks_off_never_trips() {
    let mut tm = TrafficManager::new(TrafficSnapshot { services: vec![service("quiet", &[(1, 1)], false)] });
    let s = svc("quiet");
    let u = UpstreamId::new(1);
    for t in 0..5u64 {
        let mut guard = AdmissionGuard::new(&mut tm, s.clone(), u, t);
        assert!(!guard.failure(&mut tm, t).trip_circuit);
    }
    assert_eq!(tm.total_failures(&s, &u), 5);
    assert!(tm.health_status(&s, &u, 10).healthy);
}

#[test]
fn snapshot_names_must_be_distinct() {
    let good = TrafficSnapshot { services: vec![service("a", &[(1, 1)], true), service("b", &[(2, 1)], true)] };
    assert!(good.names_distinct());
    let bad = TrafficSnapshot { services: vec![service("a", &[(1, 1)], true), service("a", &[(2, 1)], true)] };
    assert!(!bad.names_distinct());
    assert!(TrafficSnapshot { services: vec![] }.names_distinct());
}
