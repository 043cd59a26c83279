use snakeway::runtime::diff::{
    admin_auth_equivalent, classify_config_change, listener_equivalent, plan_reload, AdminAuthFacts,
    ConfigChangeKind, ConfigFacts, ListenerFacts, RejectReason, ReloadPlan, ServerFacts,
};

const DEFAULT_SOCK: &str = "/tmp/pingora_upgrade.sock";

fn minimal_server() -> ServerFacts {
    ServerFacts {
        pid_file: String::new(),
        upgrade_sock: None,
        upgrade_max_retries: None,
        threads: None,
        work_stealing: true,
        parallel_accepts_per_listener: None,
        shutdown_drain_seconds: Some(10),
        shutdown_force_timeout_seconds: None,
        upstream_connection_pool_size: None,
        upstream_connection_timeout_ms: None,
        upstream_read_timeout_ms: None,
        upstream_source_addresses: None,
        ca_file: None,
        dns_refresh_interval_seconds: 30,
        observability: None,
        tls_automation: None,
    }
}

fn minimal_listener(name: &str, addr: &str) -> ListenerFacts {
    ListenerFacts {
        name: name.to_string(),
        addr: addr.to_string(),
        tls_termination: None,
        enable_http2: false,
        http2: None,
        enable_admin: false,
        admin_auth: None,
        redirect: None,
        connection_filter: None,
        connection_rate_limiting_filter: None,
    }
}

fn minimal_config(listeners: Vec<ListenerFacts>) -> ConfigFacts {
    ConfigFacts { server: minimal_server(), listeners, services: vec![] }
}

/// An old config and a new config that differ only by the given server setting change.
fn configs_with_server_change(change: impl FnOnce(&mut ServerFacts)) -> (ConfigFacts, ConfigFacts) {
    let old = minimal_config(vec![minimal_listener("l0", "0.0.0.0:8080")]);
    let mut new = minimal_config(vec![minimal_listener("l0", "0.0.0.0:8080")]);
    change(&mut new.server);
    (old, new)
}

fn classify(old: &ConfigFacts, new: &ConfigFacts) -> ConfigChangeKind {
    classify_config_change(old, new, DEFAULT_SOCK)
}

#[test]
fn identical_configs_are_runtime_only() {
    let old = minimal_config(vec![minimal_listener("l0", "0.0.0.0:8080")]);
    let new = minimal_config(vec![minimal_listener("l0", "0.0.0.0:8080")]);
    assert_eq!(classify(&old, &new), ConfigChangeKind::RuntimeOnly);
}

#[test]
fn listener_added() {
    let old = minimal_config(vec![minimal_listener("l0", "0.0.0.0:8080")]);
    let new = minimal_config(vec![
        minimal_listener("l0", "0.0.0.0:8080"),
        minimal_listener("l1", "0.0.0.0:8443"),
    ]);
    assert_eq!(classify(&old, &new), ConfigChangeKind::UpgradeRequired);
}

#[test]
fn listener_removed() {
    let old = minimal_config(vec![
        minimal_listener("l0", "0.0.0.0:8080"),
        minimal_listener("l1", "0.0.0.0:8443"),
    ]);
    let new = minimal_config(vec![minimal_listener("l0", "0.0.0.0:8080")]);
    assert_eq!(classify(&old, &new), ConfigChangeKind::UpgradeRequired);
}

#[test]
fn listener_addr_changed() {
    let old = minimal_config(vec![minimal_listener("l0", "0.0.0.0:8080")]);
    let new = minimal_config(vec![minimal_listener("l0", "0.0.0.0:9090")]);
    assert_eq!(classify(&old, &new), ConfigChangeKind::UpgradeRequired);
}

#[test]
fn listener_http2_toggled() {
    let old = minimal_config(vec![minimal_listener("l0", "0.0.0.0:8080")]);
    let mut new_listener = minimal_listener("l0", "0.0.0.0:8080");
    new_listener.enable_http2 = true;
    let new = minimal_config(vec![new_listener]);
    assert_eq!(classify(&old, &new), ConfigChangeKind::UpgradeRequired);
}

#[test]
fn listener_http2_options_changed() {
    let make_tuned_listener = |max_concurrent_streams: u32| {
        let mut listener = minimal_listener("l0", "0.0.0.0:8080");
        listener.enable_http2 = true;
        listener.http2 = Some(format!("max_concurrent_streams={max_concurrent_streams}"));
        listener
    };
    let old = minimal_config(vec![make_tuned_listener(100)]);
    let new = minimal_config(vec![make_tuned_listener(200)]);
    assert_eq!(classify(&old, &new), ConfigChangeKind::UpgradeRequired);
}

#[test]
fn threads_changed() {
    let old = minimal_config(vec![minimal_listener("l0", "0.0.0.0:8080")]);
    let mut new = minimal_config(vec![minimal_listener("l0", "0.0.0.0:8080")]);
    new.server.threads = Some(16);
    assert_eq!(classify(&old, &new), ConfigChangeKind::UpgradeRequired);
}

#[test]
fn work_stealing_changed() {
    let old = minimal_config(vec![minimal_listener("l0", "0.0.0.0:8080")]);
    let mut new = minimal_config(vec![minimal_listener("l0", "0.0.0.0:8080")]);
    new.server.work_stealing = false;
    assert_eq!(classify(&old, &new), ConfigChangeKind::UpgradeRequired);
}

#[test]
fn shutdown_drain_seconds_changed() {
    let (old, new) = configs_with_server_change(|s| s.shutdown_drain_seconds = Some(99));
    assert_eq!(classify(&old, &new), ConfigChangeKind::UpgradeRequired);
}

#[test]
fn shutdown_force_timeout_seconds_changed() {
    let (old, new) = configs_with_server_change(|s| s.shutdown_force_timeout_seconds = Some(60));
    assert_eq!(classify(&old, &new), ConfigChangeKind::UpgradeRequired);
}

#[test]
fn upstream_connection_pool_size_changed() {
    let (old, new) = configs_with_server_change(|s| s.upstream_connection_pool_size = Some(64));
    assert_eq!(classify(&old, &new), ConfigChangeKind::UpgradeRequired);
}

#[test]
fn upstream_source_addresses_changed() {
    let (old, new) =
        configs_with_server_change(|s| s.upstream_source_addresses = Some("ipv4=10.0.0.1;ipv6=".to_string()));
    assert_eq!(classify(&old, &new), ConfigChangeKind::UpgradeRequired);
}

#[test]
fn parallel_accepts_per_listener_changed() {
    let (old, new) = configs_with_server_change(|s| s.parallel_accepts_per_listener = Some(4));
    assert_eq!(classify(&old, &new), ConfigChangeKind::UpgradeRequired);
}

#[test]
fn upstream_connection_timeout_changed() {
    let (old, new) = configs_with_server_change(|s| s.upstream_connection_timeout_ms = Some(5_000));
    assert_eq!(classify(&old, &new), ConfigChangeKind::UpgradeRequired);
}

#[test]
fn upstream_read_timeout_changed() {
    let (old, new) = configs_with_server_change(|s| s.upstream_read_timeout_ms = Some(30_000));
    assert_eq!(classify(&old, &new), ConfigChangeKind::UpgradeRequired);
}

#[test]
fn ca_file_changed() {
    let (old, new) = configs_with_server_change(|s| s.ca_file = Some("/etc/ssl/ca.pem".to_string()));
    assert_eq!(classify(&old, &new), ConfigChangeKind::UpgradeRequired);
}

#[test]
fn dns_refresh_interval_changed() {
    let (old, new) = configs_with_server_change(|s| s.dns_refresh_interval_seconds = 60);
    assert_eq!(classify(&old, &new), ConfigChangeKind::UpgradeRequired);
}

#[test]
fn observability_changed() {
    let (old, new) = configs_with_server_change(|s| s.observability = Some("default".to_string()));
    assert_eq!(classify(&old, &new), ConfigChangeKind::UpgradeRequired);
}

#[test]
fn tls_automation_changed() {
    let (old, new) = configs_with_server_change(|s| {
        s.tls_automation = Some(
            "acme=https://acme.example/dir;data_dir=/var/lib/snakeway/acme;contact=ops@example.com;store=memory;renew_within_days=30"
                .to_string(),
        )
    });
    assert_eq!(classify(&old, &new), ConfigChangeKind::UpgradeRequired);
}

#[test]
fn upgrade_max_retries_change_is_runtime_only() {
    let (old, new) = configs_with_server_change(|s| s.upgrade_max_retries = Some(5));
    assert_eq!(classify(&old, &new), ConfigChangeKind::RuntimeOnly);
}

#[test]
fn pid_file_changed_requires_restart() {
    let (old, new) = configs_with_server_change(|s| s.pid_file = "/run/snakeway-new.pid".to_string());
    assert_eq!(classify(&old, &new), ConfigChangeKind::RestartRequired { settings: vec!["server.pid_file"] });
}

#[test]
fn upgrade_sock_changed_requires_restart() {
    let (old, new) =
        configs_with_server_change(|s| s.upgrade_sock = Some("/run/snakeway-upgrade.sock".to_string()));
    assert_eq!(classify(&old, &new), ConfigChangeKind::RestartRequired { settings: vec!["server.upgrade.sock"] });
}

#[test]
fn restart_setting_wins_over_upgrade_setting() {
    let (old, new) = configs_with_server_change(|s| {
        s.pid_file = "/run/snakeway-new.pid".to_string();
        s.threads = Some(8);
    });
    assert_eq!(classify(&old, &new), ConfigChangeKind::RestartRequired { settings: vec!["server.pid_file"] });
}

#[test]
fn every_changed_restart_setting_is_named() {
    let (old, new) = configs_with_server_change(|s| {
        s.pid_file = "/run/snakeway-new.pid".to_string();
        s.upgrade_sock = Some("/run/snakeway-upgrade.sock".to_string());
    });
    assert_eq!(
        classify(&old, &new),
        ConfigChangeKind::RestartRequired { settings: vec!["server.pid_file", "server.upgrade.sock"] }
    );
}

#[test]
fn writing_the_default_upgrade_sock_is_runtime_only() {
    let (old, new) = configs_with_server_change(|s| s.upgrade_sock = Some("/tmp/pingora_upgrade.sock".to_string()));
    assert_eq!(classify(&old, &new), ConfigChangeKind::RuntimeOnly);
}

#[test]
fn runtime_only_change_is_applied_in_place() {
    let plan = plan_reload(ConfigChangeKind::RuntimeOnly, false);
    assert_eq!(plan, ReloadPlan::ApplyInPlace);
}

#[test]
fn upgrade_required_change_upgrades_where_upgrades_are_supported() {
    let plan = plan_reload(ConfigChangeKind::UpgradeRequired, true);
    assert_eq!(plan, ReloadPlan::Upgrade);
}

#[test]
fn upgrade_required_change_is_rejected_where_upgrades_are_unsupported() {
    let plan = plan_reload(ConfigChangeKind::UpgradeRequired, false);
    assert_eq!(plan, ReloadPlan::Reject { reason: RejectReason::UpgradeUnsupported, settings: vec![] });
}

#[test]
fn restart_required_change_is_rejected_on_every_platform() {
    let plan = plan_reload(ConfigChangeKind::RestartRequired { settings: vec!["server.pid_file"] }, true);
    assert_eq!(plan, ReloadPlan::Reject { reason: RejectReason::RestartRequired, settings: vec!["server.pid_file"] });
}

#[test]
fn service_change_is_runtime_only() {
    let old = minimal_config(vec![minimal_listener("l0", "0.0.0.0:8080")]);
    let mut new = minimal_config(vec![minimal_listener("l0", "0.0.0.0:8080")]);
    new.services.push("new-svc".to_string());
    assert_eq!(classify(&old, &new), ConfigChangeKind::RuntimeOnly);
}

#[test]
fn reject_reasons_have_names() {
    assert_eq!(RejectReason::RestartRequired.as_str(), "restart_required");
    assert_eq!(RejectReason::UpgradeUnsupported.as_str(), "upgrade_unsupported");
}

#[test]
fn admin_auth_is_compared_by_bearer_token_file_only() {
    let with_file = |f: Option<&str>| Some(AdminAuthFacts { bearer_token_file: f.map(|s| s.to_string()) });
    assert!(admin_auth_equivalent(&None, &None));
    assert!(!admin_auth_equivalent(&None, &with_file(None)));
    assert!(admin_auth_equivalent(&with_file(None), &with_file(None)));
    assert!(admin_auth_equivalent(&with_file(Some("/etc/token")), &with_file(Some("/etc/token"))));
    assert!(!admin_auth_equivalent(&with_file(Some("/etc/token")), &with_file(Some("/etc/other"))));
    assert!(!admin_auth_equivalent(&with_file(Some("/etc/token")), &with_file(None)));
}

#[test]
fn listener_admin_auth_change_needs_an_upgrade() {
    let a = minimal_listener("l0", "0.0.0.0:8080");
    let mut b = minimal_listener("l0", "0.0.0.0:8080");
    assert!(listener_equivalent(&a, &b));
    b.admin_auth = Some(AdminAuthFacts { bearer_token_file: Some("/etc/token".to_string()) });
    assert!(!listener_equivalent(&a, &b));
    let old = minimal_config(vec![a]);
    let new = minimal_config(vec![b]);
    assert_eq!(classify(&old, &new), ConfigChangeKind::UpgradeRequired);
}
