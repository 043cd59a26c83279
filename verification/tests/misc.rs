use snakeway::device::wasm::{
    epoch_deadline_ticks, failure_action, overflow_action, request_body_step, FailureAction,
    OverflowAction, RequestBodyStep, WasmDeviceFailPolicy,
};
use snakeway::enrichment::{DeviceType, GeoInfo};
use snakeway::runtime::types::{decimal_string, UpstreamRuntime, UpstreamTcpRuntime, UpstreamUnixRuntime};
use snakeway::traffic::decision::DecisionReason;
use snakeway::traffic::types::{ServiceId, UpstreamId};

#[test]
fn body_is_buffered_until_the_end() {
    let mut buf = Vec::new();
    assert!(matches!(request_body_step(true, 10, &mut buf, Some(b"abc"), false), RequestBodyStep::Hold));
    assert_eq!(buf, b"abc");
    match request_body_step(true, 10, &mut buf, Some(b"de"), true) {
        RequestBodyStep::Deliver(b) => assert_eq!(b, b"abcde"),
        other => panic!("expected Deliver, got {:?}", other),
    }
    assert!(buf.is_empty());
}

#[test]
fn body_overflow_takes_the_buffer() {
    let mut buf = b"12345".to_vec();
    match request_body_step(true, 6, &mut buf, Some(b"67"), false) {
        RequestBodyStep::Overflow(b) => assert_eq!(b, b"1234567"),
        other => panic!("expected Overflow, got {:?}", other),
    }
    assert!(buf.is_empty());
    assert!(matches!(request_body_step(false, 6, &mut buf, Some(b"x"), true), RequestBodyStep::Skip));
    assert!(matches!(request_body_step(true, 0, &mut buf, Some(b"x"), true), RequestBodyStep::Forward));
}

#[test]
fn fail_policies() {
    assert_eq!(failure_action(WasmDeviceFailPolicy::Open), FailureAction::Continue);
    assert_eq!(failure_action(WasmDeviceFailPolicy::Closed), FailureAction::Block503);
    assert_eq!(overflow_action(WasmDeviceFailPolicy::Open), OverflowAction::PassThrough);
    assert_eq!(overflow_action(WasmDeviceFailPolicy::Closed), OverflowAction::Reject413);
}

#[test]
fn deadline_rounds_up_to_whole_ticks() {
    assert_eq!(epoch_deadline_ticks(0, 10), 1);
    assert_eq!(epoch_deadline_ticks(5, 10), 1);
    assert_eq!(epoch_deadline_ticks(10, 10), 1);
    assert_eq!(epoch_deadline_ticks(11, 10), 2);
    assert_eq!(epoch_deadline_ticks(u64::MAX, 1), u64::MAX);
}

#[test]
fn geo_info_and_device_types() {
    assert!(!GeoInfo::default().has_some_info());
    assert!(GeoInfo { asn: Some(1), ..GeoInfo::default() }.has_some_info());
    assert_eq!(DeviceType::Tablet.as_str(), "tablet");
    assert_eq!(DeviceType::Unknown.as_str(), "unknown");
}

#[test]
fn upstream_authorities() {
    let tcp = UpstreamRuntime::Tcp(UpstreamTcpRuntime {
        id: UpstreamId::new(4),
        host: "backend".to_string(),
        port: 8080,
        use_tls: true,
        sni: "backend".to_string(),
        weight: 2,
        verify: true,
        group_key: 0,
    });
    assert_eq!(tcp.authority(), "backend:8080");
    assert!(tcp.use_tls());
    assert_eq!(tcp.weight(), 2);
    assert_eq!(tcp.id().as_u32(), 4);
    let unix = UpstreamRuntime::Unix(UpstreamUnixRuntime {
        id: UpstreamId::new(5),
        path: "/tmp/a.sock".to_string(),
        use_tls: false,
        sni: "app.internal".to_string(),
        weight: 1,
    });
    assert_eq!(unix.authority(), "app.internal");
    assert_eq!(decimal_string(0), "0");
    assert_eq!(decimal_string(65535), "65535");
}

#[test]
fn ids_and_reasons() {
    assert_eq!(ServiceId::new("api".to_string()).as_str(), "api");
    assert_eq!(DecisionReason::StickyHash.as_str(), "StickyHash");
}

#[test]
fn pool_limits_scale_with_executions() {
    let p = snakeway::device::wasm::pool_limits(100, 1 << 26);
    assert_eq!(p.total_component_instances, 100);
    assert_eq!(p.total_memories, 200);
    assert_eq!(p.total_tables, 200);
    assert_eq!(p.total_core_instances, 400);
    assert_eq!(p.total_stacks, 100);
    assert_eq!(p.max_component_instance_size, 1 << 20);
    assert_eq!(p.max_memory_size, 1 << 26);
}
