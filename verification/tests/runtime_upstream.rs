use snakeway::runtime::upstream::{
    make_upstream_runtime_for_unix, make_upstream_runtime_from_tcp, parse_upstream_url,
    resolve_upstream_tls, tcp_upstream_sni, UpstreamTcpConfig, UpstreamTlsConfig, UpstreamUnixConfig,
    UpstreamUrlError,
};

fn tls(sni: &str, verify: bool, ca_file: Option<&str>) -> UpstreamTlsConfig {
    UpstreamTlsConfig { sni: sni.to_string(), verify, ca_file: ca_file.map(|s| s.to_string()) }
}

#[test]
fn unix_upstream_without_tls_block_uses_plain_http() {
    let cfg = UpstreamUnixConfig { sock: "/tmp/app.sock".to_string(), weight: 1, tls: None };
    let (rt, plan) = make_upstream_runtime_for_unix(&cfg, None);
    assert!(!rt.use_tls);
    assert!(plan.is_none());
    assert_eq!(rt.path, "/tmp/app.sock");
}

#[test]
fn unix_upstream_with_verify_and_no_ca_file_keeps_verification_on() {
    let cfg = UpstreamUnixConfig { sock: "/tmp/app.sock".to_string(), weight: 1, tls: Some(tls("app.internal", true, None)) };
    let (rt, plan) = make_upstream_runtime_for_unix(&cfg, None);
    let plan = plan.expect("the upstream must use TLS");
    assert!(plan.verify);
    assert_eq!(plan.sni, "app.internal");
    assert!(plan.ca_file.is_none());
    assert_eq!(rt.sni, "app.internal");
}

#[test]
fn tcp_upstream_with_verify_and_no_ca_file_keeps_verification_on() {
    let cfg = UpstreamTcpConfig { url: "https://127.0.0.1:8443".to_string(), weight: 1, tls: Some(tls("backend.test", true, None)) };
    let (host, port) = parse_upstream_url(&cfg.url).unwrap();
    let (rt, plan) = make_upstream_runtime_from_tcp(&cfg, host, port, true, None);
    assert!(rt.verify);
    assert_eq!(rt.group_key, 0);
    assert!(plan.unwrap().ca_file.is_none());
    assert_eq!(rt.sni, "backend.test");
    assert_eq!(snakeway::runtime::types::UpstreamRuntime::Tcp(rt).authority(), "127.0.0.1:8443");
}

#[test]
fn tcp_upstream_with_verify_false_skips_verification() {
    let cfg = UpstreamTcpConfig { url: "https://127.0.0.1:8443".to_string(), weight: 1, tls: Some(tls("backend.test", false, Some("/etc/ca.pem"))) };
    let (rt, plan) = make_upstream_runtime_from_tcp(&cfg, "127.0.0.1".to_string(), 8443, true, Some("/etc/global.pem"));
    assert!(!rt.verify);
    assert!(plan.unwrap().ca_file.is_none());
}

#[test]
fn verify_false_skips_the_ca_file() {
    let plan = resolve_upstream_tls(Some(&tls("s", false, Some("/ca.pem"))), "s".to_string(), Some("/global.pem")).unwrap();
    assert!(plan.ca_file.is_none());
}

#[test]
fn verify_without_any_ca_file_keeps_verification_on() {
    let plan = resolve_upstream_tls(Some(&tls("s", true, None)), "s".to_string(), None).unwrap();
    assert!(plan.verify);
    assert!(plan.ca_file.is_none());
}

#[test]
fn global_ca_file_applies_when_upstream_has_none() {
    let plan = resolve_upstream_tls(Some(&tls("s", true, None)), "s".to_string(), Some("/global.pem")).unwrap();
    assert_eq!(plan.ca_file.as_deref(), Some("/global.pem"));
}

#[test]
fn upstream_ca_file_is_used_before_global_ca_file() {
    let plan = resolve_upstream_tls(Some(&tls("s", true, Some("/own.pem"))), "s".to_string(), Some("/global.pem")).unwrap();
    assert_eq!(plan.ca_file.as_deref(), Some("/own.pem"));
}

#[test]
fn upstream_without_tls_block_has_no_tls_settings() {
    assert!(resolve_upstream_tls(None, String::new(), Some("/global.pem")).is_none());
}

#[test]
fn sni_choice_for_tcp_upstreams() {
    assert_eq!(tcp_upstream_sni(None, "backend", false), "");
    assert_eq!(tcp_upstream_sni(Some(&tls("given", true, None)), "backend", false), "given");
    assert_eq!(tcp_upstream_sni(Some(&tls("  ", true, None)), "backend", false), "backend");
    assert_eq!(tcp_upstream_sni(Some(&tls("", true, None)), "10.0.0.1", true), "");
}

#[test]
fn upstream_urls_give_host_and_port() {
    assert_eq!(parse_upstream_url("http://backend").unwrap(), ("backend".to_string(), 80));
    assert_eq!(parse_upstream_url("https://backend:9443/x").unwrap(), ("backend".to_string(), 9443));
    assert_eq!(parse_upstream_url("/only/a/path"), Err(UpstreamUrlError::MissingAuthority("/only/a/path".to_string())));
    assert!(matches!(parse_upstream_url("http://bad host"), Err(UpstreamUrlError::InvalidUrl(_))));
}

#[test]
fn ids_of_equal_addresses_are_equal() {
    let a = UpstreamUnixConfig { sock: "/tmp/a.sock".to_string(), weight: 1, tls: None };
    let (x, _) = make_upstream_runtime_for_unix(&a, None);
    let (y, _) = make_upstream_runtime_for_unix(&a, None);
    assert_eq!(x.id, y.id);
}
